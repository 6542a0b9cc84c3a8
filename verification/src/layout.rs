//! The layout engine: walks the organization tree in the order the
//! ordering directive gives, packs the visible role boxes into grids, and
//! stacks the organization containers without overlap. Everything here is
//! deterministic; the random identifier tags enter only when the layout is
//! rendered.

use vstd::prelude::*;

verus! {

use vstd::arithmetic::div_mod::lemma_div_nonincreasing;
use vstd::arithmetic::mul::lemma_mul_upper_bound;

use crate::MAX_PARAM;
use crate::config::Config;
use crate::data::Calling;
use crate::data::DataError;
use crate::data::Date;
use crate::data::Organization;
use crate::data::date_chars;
use crate::generate::GenerateError;
use crate::text::id_base;
use crate::text::id_base_chars;
use crate::text::sanitize;
use crate::text::sanitized;

// ---------------------------------------------------------------------------
// Derived geometry of a configuration
// ---------------------------------------------------------------------------
/// Number of role boxes in a full row, without the margins between them.
pub open spec fn row_width(c: &Config) -> int {
    c.calling_bubble_dimensions.width * c.calling_bubbles_per_row
}

/// The smallest height any organization or sub-organization box may have:
/// room for the title bar and a single row of role boxes.
pub open spec fn minimum_org_height(c: &Config) -> int {
    c.org_bubble_title_height + c.calling_bubble_dimensions.height + 2
        * c.calling_bubble_vertical_margins
}

/// Interior width of a sub-organization box.
pub open spec fn sub_org_width(c: &Config) -> int {
    c.org_bubble_width - 2 * c.sub_org_bubble_horzontal_margins
}

/// The horizontal margin placed left of each role box inside an
/// organization box: the slack width split over `capacity + 1` gaps.
pub open spec fn org_left_margin(c: &Config) -> int {
    (c.org_bubble_width - row_width(c)) / (c.calling_bubbles_per_row + 1)
}

/// The same margin inside a sub-organization box.
pub open spec fn sub_left_margin(c: &Config) -> int {
    (sub_org_width(c) - row_width(c)) / (c.calling_bubbles_per_row + 1)
}

/// A configuration is feasible when the margin derived for role boxes in a
/// sub-organization box is at least the configured minimum; equivalently,
/// a full row of boxes plus `capacity + 1` minimum gaps fits the interior
/// width. An infeasible configuration is rejected before any box is placed.
pub open spec fn feasible(c: &Config) -> bool {
    sub_org_width(c) >= row_width(c) + c.calling_bubble_min_horizontal_margin * (
    c.calling_bubbles_per_row + 1)
}

// ---------------------------------------------------------------------------
// Grid packing
// ---------------------------------------------------------------------------
/// Horizontal position of the box with visible index `i` in a grid of
/// per-row capacity `k`: each column adds its leading gap of `margin` and
/// one box width.
pub open spec fn packed_x(i: int, k: int, margin: int, w: int) -> int {
    (i % k + 1) * margin + (i % k) * w
}

/// Vertical position of the box with visible index `i`: below the title
/// bar and one vertical margin, each full row adding a box height and a
/// margin.
pub open spec fn packed_y(i: int, k: int, title: int, vm: int, h: int) -> int {
    title + vm + (i / k) * (h + vm)
}

/// Number of grid rows that `n` boxes occupy at capacity `k`.
pub open spec fn rows_needed(n: int, k: int) -> int {
    if n <= 0 {
        0
    } else {
        (n - 1) / k + 1
    }
}

/// Interior height that `n` role boxes need: one row of boxes and margins
/// per grid row, a closing margin, and the title bar.
pub open spec fn estimated_height(n: int, c: &Config) -> int {
    rows_needed(n, c.calling_bubbles_per_row as int) * (c.calling_bubble_dimensions.height
        + c.calling_bubble_vertical_margins) + c.calling_bubble_vertical_margins
        + c.org_bubble_title_height
}

/// The height actually given to a container: the estimate, floored at the
/// global minimum height.
pub open spec fn container_height_spec(n: int, c: &Config) -> int {
    if estimated_height(n, c) < minimum_org_height(c) {
        minimum_org_height(c)
    } else {
        estimated_height(n, c)
    }
}

// ---------------------------------------------------------------------------
// Visible roles and the one-level flattening of grandchildren
// ---------------------------------------------------------------------------
/// The drawn roles among the first `i` entries of `cs`, in order: the
/// roles with an assigned holder. Vacant roles are skipped entirely and
/// consume no grid slot.
pub open spec fn visible_prefix(cs: Seq<Calling>, i: int) -> Seq<Calling>
    decreases i,
{
    if i <= 0 {
        Seq::empty()
    } else {
        visible_prefix(cs, i - 1) + (if cs[i - 1].member is Some {
            seq![cs[i - 1]]
        } else {
            Seq::empty()
        })
    }
}

/// The drawn roles of `cs`, in order.
pub open spec fn visible(cs: Seq<Calling>) -> Seq<Calling> {
    visible_prefix(cs, cs.len() as int)
}

/// Drawn roles of the first `i` grandchildren, concatenated in order.
pub open spec fn grand_visible_prefix(gs: Seq<Organization>, i: int) -> Seq<Calling>
    decreases i,
{
    if i <= 0 {
        Seq::empty()
    } else {
        grand_visible_prefix(gs, i - 1) + visible(gs[i - 1].callings@)
    }
}

/// The roles a sub-organization box shows: the child's own drawn roles
/// followed by the drawn roles of each of its children, in order. Nesting
/// flattens exactly this one additional level.
pub open spec fn flat_visible(child: Organization) -> Seq<Calling> {
    visible(child.callings@) + grand_visible_prefix(
        child.children@,
        child.children@.len() as int,
    )
}

/// Combined length of the flattened role lists of the first `i` children.
pub open spec fn children_flat_prefix_len(children: Seq<Organization>, i: int) -> int
    decreases i,
{
    if i <= 0 {
        0
    } else {
        children_flat_prefix_len(children, i - 1) + flat_visible(children[i - 1]).len()
    }
}

/// Number of boxes an organization contributes to the global counter: its
/// own drawn roles when it has no children, otherwise the flattened drawn
/// roles of all its children. An organization with children never draws
/// its own direct roles; see [`compute_layout`].
pub open spec fn drawn_count(o: Organization) -> int {
    if o.children@.len() == 0 {
        visible(o.callings@).len() as int
    } else {
        children_flat_prefix_len(o.children@, o.children@.len() as int)
    }
}

// ---------------------------------------------------------------------------
// Date faults, in traversal order
// ---------------------------------------------------------------------------
/// The error `Date::to_string` reports for an invalid date.
pub open spec fn date_fault(d: Date) -> DataError {
    if !(1 <= d.month <= 12) {
        DataError::InvalidMonth(d.month)
    } else {
        DataError::InvalidDay { day: d.day, month: d.month }
    }
}

/// The date of the first drawn role among the first `i` entries of `cs`
/// whose date is invalid, if any.
pub open spec fn first_bad_prefix(cs: Seq<Calling>, i: int) -> Option<Date>
    decreases i,
{
    if i <= 0 {
        None
    } else {
        let prev = first_bad_prefix(cs, i - 1);
        if prev is Some {
            prev
        } else if cs[i - 1].member is Some && !cs[i - 1].member->0.held_calling_since.is_valid() {
            Some(cs[i - 1].member->0.held_calling_since)
        } else {
            None
        }
    }
}

/// The first invalid date among the drawn roles of `cs`.
pub open spec fn first_bad_date(cs: Seq<Calling>) -> Option<Date> {
    first_bad_prefix(cs, cs.len() as int)
}

/// First invalid date among the drawn roles of the first `i` grandchildren.
pub open spec fn grand_first_bad_prefix(gs: Seq<Organization>, i: int) -> Option<Date>
    decreases i,
{
    if i <= 0 {
        None
    } else {
        let prev = grand_first_bad_prefix(gs, i - 1);
        if prev is Some {
            prev
        } else {
            first_bad_date(gs[i - 1].callings@)
        }
    }
}

/// First invalid date in the flattened role list of a child.
pub open spec fn child_first_bad(child: Organization) -> Option<Date> {
    if first_bad_date(child.callings@) is Some {
        first_bad_date(child.callings@)
    } else {
        grand_first_bad_prefix(child.children@, child.children@.len() as int)
    }
}

/// First invalid date among the first `i` children of an organization.
pub open spec fn children_first_bad_prefix(children: Seq<Organization>, i: int) -> Option<Date>
    decreases i,
{
    if i <= 0 {
        None
    } else {
        let prev = children_first_bad_prefix(children, i - 1);
        if prev is Some {
            prev
        } else {
            child_first_bad(children[i - 1])
        }
    }
}

/// The first invalid date among the roles an organization draws, in the
/// order they are placed.
pub open spec fn org_first_bad(o: Organization) -> Option<Date> {
    if o.children@.len() == 0 {
        first_bad_date(o.callings@)
    } else {
        children_first_bad_prefix(o.children@, o.children@.len() as int)
    }
}

// ---------------------------------------------------------------------------
// Organization resolution and the fault scan
// ---------------------------------------------------------------------------
/// Index of the first organization at or after `i` whose name is `name`.
pub open spec fn find_org_from(orgs: Seq<Organization>, name: Seq<char>, i: int) -> Option<int>
    decreases orgs.len() - i,
{
    if i < 0 || i >= orgs.len() {
        None
    } else if orgs[i].name@ == name {
        Some(i)
    } else {
        find_org_from(orgs, name, i + 1)
    }
}

/// Index of the first organization named `name`, if any.
pub open spec fn find_org(orgs: Seq<Organization>, name: Seq<char>) -> Option<int> {
    find_org_from(orgs, name, 0)
}

/// The organization that ordering entry `j` names.
pub open spec fn resolved(orgs: Seq<Organization>, c: &Config, j: int) -> Organization {
    orgs[find_org(orgs, c.org_ordering@[j].name@)->0]
}

/// Why a layout run fails.
pub enum LayoutFault {
    /// The configured per-row capacity is zero or negative.
    NonPositiveCapacity,
    /// The configuration is not [`feasible`].
    InfeasibleMargin,
    /// Ordering entry `entry` names an organization absent from the tree.
    UnknownOrg { entry: int },
    /// A drawn role holder carries this invalid date.
    BadDate { date: Date },
}

/// The fault of ordering entry `j`, if any: an unresolvable name, else the
/// first invalid date among the roles the named organization draws.
pub open spec fn entry_fault(orgs: Seq<Organization>, c: &Config, j: int) -> Option<LayoutFault> {
    match find_org(orgs, c.org_ordering@[j].name@) {
        None => Some(LayoutFault::UnknownOrg { entry: j }),
        Some(t) => match org_first_bad(orgs[t]) {
            Some(d) => Some(LayoutFault::BadDate { date: d }),
            None => None,
        },
    }
}

/// The first fault among the first `j` ordering entries.
pub open spec fn entries_fault_prefix(orgs: Seq<Organization>, c: &Config, j: int) -> Option<
    LayoutFault,
>
    decreases j,
{
    if j <= 0 {
        None
    } else {
        let prev = entries_fault_prefix(orgs, c, j - 1);
        if prev is Some {
            prev
        } else {
            entry_fault(orgs, c, j - 1)
        }
    }
}

/// The first fault of a whole layout run: a non-positive capacity, then an
/// infeasible margin, then the entry faults in directive order. The run
/// succeeds if and only if this is `None`.
pub open spec fn layout_fault(orgs: Seq<Organization>, c: &Config) -> Option<LayoutFault> {
    if c.calling_bubbles_per_row <= 0 {
        Some(LayoutFault::NonPositiveCapacity)
    } else if !feasible(c) {
        Some(LayoutFault::InfeasibleMargin)
    } else {
        entries_fault_prefix(orgs, c, c.org_ordering@.len() as int)
    }
}

// ---------------------------------------------------------------------------
// Container heights and the running cursor
// ---------------------------------------------------------------------------
/// Vertical space the first `i` children of an organization occupy: each
/// child with at least one flattened drawn role contributes one leading
/// sub-organization margin and its container height; the others nothing.
pub open spec fn sub_stack_prefix(children: Seq<Organization>, i: int, c: &Config) -> int
    decreases i,
{
    if i <= 0 {
        0
    } else {
        sub_stack_prefix(children, i - 1, c) + (if flat_visible(children[i - 1]).len() > 0 {
            c.sub_org_bubble_vertical_margins + container_height_spec(
                flat_visible(children[i - 1]).len() as int,
                c,
            )
        } else {
            0
        })
    }
}

/// Number of children among the first `i` that produce a sub-organization
/// box.
pub open spec fn placed_upto(children: Seq<Organization>, i: int) -> int
    decreases i,
{
    if i <= 0 {
        0
    } else {
        placed_upto(children, i - 1) + (if flat_visible(children[i - 1]).len() > 0 {
            1int
        } else {
            0int
        })
    }
}

/// Vertical position of child `ci`'s sub-organization box inside its
/// parent, valid when that child is placed.
pub open spec fn sub_y_spec(children: Seq<Organization>, ci: int, c: &Config) -> int {
    c.org_bubble_title_height + sub_stack_prefix(children, ci, c)
        + c.sub_org_bubble_vertical_margins
}

/// Total height of an organization box: for a childless organization the
/// container height of its drawn roles; otherwise the stacked heights of
/// its placed sub-organization boxes with their margins, floored at the
/// global minimum.
pub open spec fn org_height_spec(o: Organization, c: &Config) -> int {
    if o.children@.len() == 0 {
        container_height_spec(visible(o.callings@).len() as int, c)
    } else {
        let span = c.org_bubble_title_height + sub_stack_prefix(
            o.children@,
            o.children@.len() as int,
            c,
        ) + c.sub_org_bubble_vertical_margins;
        if span < minimum_org_height(c) {
            minimum_org_height(c)
        } else {
            span
        }
    }
}

/// Horizontal advance of one column change.
pub open spec fn column_step(c: &Config) -> int {
    c.org_bubble_width + c.org_bubble_margins.right + c.org_bubble_margins.left
}

/// Horizontal cursor before ordering entry `j` is processed.
pub open spec fn cursor_x_before(c: &Config, j: int) -> int
    decreases j,
{
    if j <= 0 {
        c.diagram_start_x as int
    } else {
        cursor_x_before(c, j - 1) + (if c.org_ordering@[j - 1].begins_new_column {
            column_step(c)
        } else {
            0
        })
    }
}

/// Vertical cursor before ordering entry `j` is processed: each earlier
/// entry in the same column adds its top margin, its organization height,
/// and its bottom margin; a column change resets to the diagram start.
pub open spec fn cursor_y_before(orgs: Seq<Organization>, c: &Config, j: int) -> int
    decreases j,
{
    if j <= 0 {
        c.diagram_start_y as int
    } else {
        (if c.org_ordering@[j - 1].begins_new_column {
            c.diagram_start_y as int
        } else {
            cursor_y_before(orgs, c, j - 1)
        }) + c.org_bubble_margins.top + org_height_spec(resolved(orgs, c, j - 1), c)
            + c.org_bubble_margins.bottom
    }
}

/// Horizontal position of the organization box of entry `j`.
pub open spec fn org_x_pos(c: &Config, j: int) -> int {
    cursor_x_before(c, j) + (if c.org_ordering@[j].begins_new_column {
        column_step(c)
    } else {
        0
    })
}

/// Vertical position of the organization box of entry `j`.
pub open spec fn org_y_pos(orgs: Seq<Organization>, c: &Config, j: int) -> int {
    (if c.org_ordering@[j].begins_new_column {
        c.diagram_start_y as int
    } else {
        cursor_y_before(orgs, c, j)
    }) + c.org_bubble_margins.top
}

/// Value of the global box counter before entry `j` is processed.
pub open spec fn counter_before(orgs: Seq<Organization>, c: &Config, j: int) -> int
    decreases j,
{
    if j <= 0 {
        0
    } else {
        counter_before(orgs, c, j - 1) + drawn_count(resolved(orgs, c, j - 1))
    }
}

// ---------------------------------------------------------------------------
// The computed layout and what it must satisfy
// ---------------------------------------------------------------------------
/// One placed role box: its global counter value, its label parts, and its
/// position relative to its container.
pub struct BubbleBox {
    pub num: u128,
    pub name: String,
    pub last_name: String,
    pub given_names: String,
    pub since: String,
    pub x: u128,
    pub y: u128,
}

/// One placed sub-organization box with its role boxes.
pub struct SubOrgLayout {
    pub name: String,
    pub id_base: String,
    pub y: u128,
    pub height: u128,
    pub callings: Vec<BubbleBox>,
}

/// One placed organization box: either its directly packed role boxes or
/// its stacked sub-organization boxes.
pub struct OrgLayout {
    pub name: String,
    pub id_base: String,
    pub x: u128,
    pub y: u128,
    pub height: u128,
    pub callings: Vec<BubbleBox>,
    pub sub_orgs: Vec<SubOrgLayout>,
}

/// A whole computed layout, with the configuration-derived widths the
/// renderer needs.
pub struct Layout {
    pub orgs: Vec<OrgLayout>,
    pub org_width: u128,
    pub sub_org_width: u128,
    pub sub_org_inset: u128,
    pub box_width: u128,
    pub box_height: u128,
}

/// A placed role box is correct for the drawn role `cal` at visible index
/// `vis_idx` of its container grid, carrying counter value `num`.
pub open spec fn box_matches(
    b: BubbleBox,
    cal: Calling,
    num: int,
    vis_idx: int,
    margin: int,
    c: &Config,
) -> bool {
    &&& cal.member is Some
    &&& b.num == num
    &&& b.name@ == sanitized(cal.name@)
    &&& b.last_name@ == cal.member->0.last_name@
    &&& b.given_names@ == cal.member->0.given_names@
    &&& b.since@ == date_chars(cal.member->0.held_calling_since)
    &&& b.x == packed_x(
        vis_idx,
        c.calling_bubbles_per_row as int,
        margin,
        c.calling_bubble_dimensions.width as int,
    )
    &&& b.y == packed_y(
        vis_idx,
        c.calling_bubbles_per_row as int,
        c.org_bubble_title_height as int,
        c.calling_bubble_vertical_margins as int,
        c.calling_bubble_dimensions.height as int,
    )
}

/// A placed sub-organization box is correct for `child` at vertical
/// position `y`, its role boxes numbered from `num_base`.
pub open spec fn sub_matches(
    sl: SubOrgLayout,
    child: Organization,
    y: int,
    num_base: int,
    c: &Config,
) -> bool {
    &&& sl.name@ == sanitized(child.name@)
    &&& sl.id_base@ == id_base_chars(child.name@)
    &&& sl.y == y
    &&& sl.height == container_height_spec(flat_visible(child).len() as int, c)
    &&& sl.callings@.len() == flat_visible(child).len()
    &&& forall|i: int|
        0 <= i < flat_visible(child).len() ==> box_matches(
            #[trigger] sl.callings@[i],
            flat_visible(child)[i],
            num_base + i,
            i,
            sub_left_margin(c),
            c,
        )
}

/// The sub-organization boxes of an organization are exactly those of its
/// children with at least one flattened drawn role, in child order, each
/// at its stacked position.
pub open spec fn subs_match(
    subs: Seq<SubOrgLayout>,
    children: Seq<Organization>,
    num_base: int,
    c: &Config,
) -> bool {
    &&& subs.len() == placed_upto(children, children.len() as int)
    &&& forall|ci: int|
        0 <= ci < children.len() && flat_visible(#[trigger] children[ci]).len() > 0
            ==> sub_matches(
            subs[placed_upto(children, ci)],
            children[ci],
            sub_y_spec(children, ci, c),
            num_base + children_flat_prefix_len(children, ci),
            c,
        )
}

/// The layout record of ordering entry `j` is correct.
pub open spec fn org_layout_matches(
    ol: OrgLayout,
    orgs: Seq<Organization>,
    c: &Config,
    j: int,
) -> bool {
    let o = resolved(orgs, c, j);
    &&& ol.name@ == sanitized(o.name@)
    &&& ol.id_base@ == id_base_chars(o.name@)
    &&& ol.x == org_x_pos(c, j)
    &&& ol.y == org_y_pos(orgs, c, j)
    &&& ol.height == org_height_spec(o, c)
    &&& if o.children@.len() == 0 {
        &&& ol.sub_orgs@.len() == 0
        &&& ol.callings@.len() == visible(o.callings@).len()
        &&& forall|i: int|
            0 <= i < visible(o.callings@).len() ==> box_matches(
                #[trigger] ol.callings@[i],
                visible(o.callings@)[i],
                counter_before(orgs, c, j) + i,
                i,
                org_left_margin(c),
                c,
            )
    } else {
        &&& ol.callings@.len() == 0
        &&& subs_match(ol.sub_orgs@, o.children@, counter_before(orgs, c, j), c)
    }
}

/// A computed layout is correct for the tree and configuration: one record
/// per ordering entry, each placed and labeled as the model requires, and
/// the derived widths carried along for rendering.
pub open spec fn layout_matches(l: Layout, orgs: Seq<Organization>, c: &Config) -> bool {
    &&& l.org_width == c.org_bubble_width
    &&& l.sub_org_width == sub_org_width(c)
    &&& l.sub_org_inset == c.sub_org_bubble_horzontal_margins
    &&& l.box_width == c.calling_bubble_dimensions.width
    &&& l.box_height == c.calling_bubble_dimensions.height
    &&& l.orgs@.len() == c.org_ordering@.len()
    &&& forall|j: int|
        0 <= j < c.org_ordering@.len() ==> org_layout_matches(#[trigger] l.orgs@[j], orgs, c, j)
}

// ---------------------------------------------------------------------------
// Bounds on the tree, so that every coordinate fits the arithmetic
// ---------------------------------------------------------------------------
/// A node's own lists are no longer than the largest accepted parameter.
pub open spec fn node_bounded(o: Organization) -> bool {
    o.callings@.len() <= MAX_PARAM && o.children@.len() <= MAX_PARAM
}

/// A child's lists and its own children's role lists are bounded.
pub open spec fn child_bounded(ch: Organization) -> bool {
    node_bounded(ch) && forall|g: int|
        0 <= g < ch.children@.len() ==> (#[trigger] ch.children@[g]).callings@.len() <= MAX_PARAM
}

/// The lists the layout engine walks in one top-level organization are
/// bounded: its own, its children's, and its grandchildren's role lists.
pub open spec fn org_tree_bounded(o: Organization) -> bool {
    node_bounded(o) && forall|i: int|
        0 <= i < o.children@.len() ==> child_bounded(#[trigger] o.children@[i])
}

/// Every top-level organization is bounded and there are not too many.
pub open spec fn orgs_bounded(orgs: Seq<Organization>) -> bool {
    orgs.len() <= MAX_PARAM && forall|t: int|
        0 <= t < orgs.len() ==> org_tree_bounded(#[trigger] orgs[t])
}

/// Largest possible flattened role count of one child.
pub const FLAT_MAX: u128 = 2_000_000_000_000;

/// Largest possible container height.
pub const HEIGHT_MAX: u128 = 5_000_000_000_000_000_000;

/// Largest vertical space one placed child adds to its parent.
pub const SUB_STEP: u128 = 6_000_000_000_000_000_000;

/// Largest possible organization box height.
pub const ORG_HEIGHT_MAX: u128 = 10_000_000_000_000_000_000_000_000;

/// Largest number of boxes one organization draws.
pub const DRAWN_MAX: u128 = 2_000_000_000_000_000_000;

proof fn lemma_visible_prefix_len(cs: Seq<Calling>, i: int)
    requires
        0 <= i <= cs.len(),
    ensures
        0 <= visible_prefix(cs, i).len() <= i,
    decreases i,
{
    if i > 0 {
        lemma_visible_prefix_len(cs, i - 1);
    }
}

proof fn lemma_grand_visible_len(gs: Seq<Organization>, i: int)
    requires
        0 <= i <= gs.len(),
        forall|g: int| 0 <= g < gs.len() ==> (#[trigger] gs[g]).callings@.len() <= MAX_PARAM,
    ensures
        0 <= grand_visible_prefix(gs, i).len() <= i * (MAX_PARAM as int),
    decreases i,
{
    if i > 0 {
        lemma_grand_visible_len(gs, i - 1);
        lemma_visible_prefix_len(gs[i - 1].callings@, gs[i - 1].callings@.len() as int);
    }
}

proof fn lemma_flat_visible_len(child: Organization)
    requires
        child_bounded(child),
    ensures
        0 <= flat_visible(child).len() <= FLAT_MAX as int,
{
    lemma_visible_prefix_len(child.callings@, child.callings@.len() as int);
    lemma_grand_visible_len(child.children@, child.children@.len() as int);
    lemma_mul_upper_bound(
        child.children@.len() as int,
        MAX_PARAM as int,
        MAX_PARAM as int,
        MAX_PARAM as int,
    );
}

proof fn lemma_container_height_bounds(n: int, c: &Config)
    requires
        c.wf(),
        1 <= c.calling_bubbles_per_row,
        0 <= n <= FLAT_MAX as int,
    ensures
        minimum_org_height(c) <= container_height_spec(n, c) <= HEIGHT_MAX as int,
        0 <= minimum_org_height(c),
{
    let k = c.calling_bubbles_per_row as int;
    let rows = rows_needed(n, k);
    if n > 0 {
        lemma_div_nonincreasing(n - 1, k);
        vstd::arithmetic::div_mod::lemma_div_pos_is_pos(n - 1, k);
    }
    assert(0 <= rows <= FLAT_MAX as int);
    lemma_mul_upper_bound(
        rows,
        FLAT_MAX as int,
        c.calling_bubble_dimensions.height + c.calling_bubble_vertical_margins,
        2 * MAX_PARAM as int,
    );
    vstd::arithmetic::mul::lemma_mul_nonnegative(
        rows,
        c.calling_bubble_dimensions.height + c.calling_bubble_vertical_margins,
    );
}

proof fn lemma_sub_stack_bounds(children: Seq<Organization>, i: int, c: &Config)
    requires
        c.wf(),
        1 <= c.calling_bubbles_per_row,
        0 <= i <= children.len(),
        forall|ci: int| 0 <= ci < children.len() ==> child_bounded(#[trigger] children[ci]),
    ensures
        0 <= sub_stack_prefix(children, i, c) <= i * (SUB_STEP as int),
    decreases i,
{
    if i > 0 {
        lemma_sub_stack_bounds(children, i - 1, c);
        if flat_visible(children[i - 1]).len() > 0 {
            lemma_flat_visible_len(children[i - 1]);
            lemma_container_height_bounds(flat_visible(children[i - 1]).len() as int, c);
        }
    }
}

proof fn lemma_org_height_bounds(o: Organization, c: &Config)
    requires
        c.wf(),
        1 <= c.calling_bubbles_per_row,
        org_tree_bounded(o),
    ensures
        0 <= org_height_spec(o, c) <= ORG_HEIGHT_MAX as int,
{
    if o.children@.len() == 0 {
        lemma_visible_prefix_len(o.callings@, o.callings@.len() as int);
        lemma_container_height_bounds(visible(o.callings@).len() as int, c);
    } else {
        lemma_sub_stack_bounds(o.children@, o.children@.len() as int, c);
        lemma_mul_upper_bound(o.children@.len() as int, MAX_PARAM as int, SUB_STEP as int, SUB_STEP as int);
        lemma_container_height_bounds(0, c);
    }
}

proof fn lemma_children_flat_len_bounds(children: Seq<Organization>, i: int)
    requires
        0 <= i <= children.len(),
        forall|ci: int| 0 <= ci < children.len() ==> child_bounded(#[trigger] children[ci]),
    ensures
        0 <= children_flat_prefix_len(children, i) <= i * (FLAT_MAX as int),
    decreases i,
{
    if i > 0 {
        lemma_children_flat_len_bounds(children, i - 1);
        lemma_flat_visible_len(children[i - 1]);
    }
}

proof fn lemma_drawn_count_bounds(o: Organization)
    requires
        org_tree_bounded(o),
    ensures
        0 <= drawn_count(o) <= DRAWN_MAX as int,
{
    if o.children@.len() == 0 {
        lemma_visible_prefix_len(o.callings@, o.callings@.len() as int);
    } else {
        lemma_children_flat_len_bounds(o.children@, o.children@.len() as int);
        lemma_mul_upper_bound(o.children@.len() as int, MAX_PARAM as int, FLAT_MAX as int, FLAT_MAX as int);
    }
}

proof fn lemma_first_bad_persists(cs: Seq<Calling>, i: int, i2: int)
    requires
        0 <= i <= i2 <= cs.len(),
        first_bad_prefix(cs, i) is Some,
    ensures
        first_bad_prefix(cs, i2) == first_bad_prefix(cs, i),
    decreases i2 - i,
{
    if i2 > i {
        lemma_first_bad_persists(cs, i, i2 - 1);
    }
}

proof fn lemma_grand_first_bad_persists(gs: Seq<Organization>, i: int, i2: int)
    requires
        0 <= i <= i2 <= gs.len(),
        grand_first_bad_prefix(gs, i) is Some,
    ensures
        grand_first_bad_prefix(gs, i2) == grand_first_bad_prefix(gs, i),
    decreases i2 - i,
{
    if i2 > i {
        lemma_grand_first_bad_persists(gs, i, i2 - 1);
    }
}

proof fn lemma_children_first_bad_persists(children: Seq<Organization>, i: int, i2: int)
    requires
        0 <= i <= i2 <= children.len(),
        children_first_bad_prefix(children, i) is Some,
    ensures
        children_first_bad_prefix(children, i2) == children_first_bad_prefix(children, i),
    decreases i2 - i,
{
    if i2 > i {
        lemma_children_first_bad_persists(children, i, i2 - 1);
    }
}

proof fn lemma_entries_fault_persists(orgs: Seq<Organization>, c: &Config, j: int, j2: int)
    requires
        0 <= j <= j2 <= c.org_ordering@.len(),
        entries_fault_prefix(orgs, c, j) is Some,
    ensures
        entries_fault_prefix(orgs, c, j2) == entries_fault_prefix(orgs, c, j),
    decreases j2 - j,
{
    if j2 > j {
        lemma_entries_fault_persists(orgs, c, j, j2 - 1);
    }
}

/// Computes the position of the box with visible index `i` in a grid of
/// per-row capacity `k`, relative to the container's top-left corner.
/// Boxes are `w` by `h`, separated vertically by `m`, each column led by a
/// gap of `left_margin`, and the first row sits below a title bar of
/// height `title` plus one vertical margin.
pub fn packed_position(
    i: u128,
    k: u128,
    w: u128,
    h: u128,
    m: u128,
    left_margin: u128,
    title: u128,
) -> (p: (u128, u128))
    requires
        1 <= k <= MAX_PARAM,
        i < 0x10000000000000000,
        w <= MAX_PARAM,
        h <= MAX_PARAM,
        m <= MAX_PARAM,
        left_margin <= MAX_PARAM,
        title <= MAX_PARAM,
    ensures
        p.0 == packed_x(i as int, k as int, left_margin as int, w as int),
        p.1 == packed_y(i as int, k as int, title as int, m as int, h as int),
{
    let col = i % k;
    let row = i / k;
    proof {
        lemma_div_nonincreasing(i as int, k as int);
        lemma_mul_upper_bound(col as int + 1, MAX_PARAM as int, left_margin as int, MAX_PARAM as int);
        lemma_mul_upper_bound(col as int, MAX_PARAM as int, w as int, MAX_PARAM as int);
        lemma_mul_upper_bound(row as int, 0x10000000000000000, (h + m) as int, 2 * MAX_PARAM as int);
    }
    let x = (col + 1) * left_margin + col * w;
    let y = title + m + row * (h + m);
    (x, y)
}

/// Computes the container height for `n` visible role boxes, per the
/// height estimate floored at the global minimum. The result never falls
/// below the minimum, and equals it exactly whenever the boxes fit in one
/// row.
pub fn container_height(n: u128, c: &Config) -> (r: u128)
    requires
        c.wf(),
        1 <= c.calling_bubbles_per_row,
        n < 0x10000000000000000,
    ensures
        r == container_height_spec(n as int, c),
        r >= minimum_org_height(c),
        n <= c.calling_bubbles_per_row as u128 ==> r == minimum_org_height(c),
{
    let k = c.calling_bubbles_per_row as u128;
    let box_h = c.calling_bubble_dimensions.height as u128;
    let vm = c.calling_bubble_vertical_margins as u128;
    let title = c.org_bubble_title_height as u128;
    let min_h = title + box_h + 2 * vm;
    let rows: u128 = if n == 0 {
        0
    } else {
        (n - 1) / k + 1
    };
    proof {
        if n > 0 {
            lemma_div_nonincreasing(n as int - 1, k as int);
        }
        lemma_mul_upper_bound(rows as int, 0x10000000000000000, (box_h + vm) as int, 2 * MAX_PARAM as int);
        vstd::arithmetic::mul::lemma_mul_basics((box_h + vm) as int);
        if n > 0 && n <= k {
            assert((n - 1) as int / k as int == 0) by {
                vstd::arithmetic::div_mod::lemma_basic_div((n - 1) as int, k as int);
            }
            assert(rows == 1);
        }
    }
    let est = rows * (box_h + vm) + vm + title;
    proof {
        if n == 0 {
            assert(est == vm + title);
        }
        if 1 <= n <= k {
            assert(est as int == 1 * ((box_h + vm) as int) + vm + title);
            assert(est == min_h);
        }
    }
    if est < min_h {
        min_h
    } else {
        est
    }
}

/// Largest vertical cursor advance of one ordering entry.
const Y_STEP: u128 = 20_000_000_000_000_000_000_000_000;

/// Appends one box per drawn role of `cs` to `boxes`, packing each at the
/// grid slot given by the running box count, numbering each from the
/// running counter, and propagating the first invalid holder date in
/// order. Vacant roles are skipped and consume no grid slot.
fn place_from(
    cs: &Vec<Calling>,
    conf: &Config,
    margin: u128,
    boxes: &mut Vec<BubbleBox>,
    counter: &mut u128,
) -> (r: Result<(), GenerateError>)
    requires
        conf.wf(),
        1 <= conf.calling_bubbles_per_row,
        margin <= MAX_PARAM as u128,
        cs@.len() <= MAX_PARAM as int,
        old(boxes)@.len() <= FLAT_MAX as int,
        *old(counter) <= 0x1000000000000000000000000u128,
    ensures
        r is Ok <==> first_bad_date(cs@) is None,
        r matches Ok(()) ==> {
            &&& final(boxes)@.len() == old(boxes)@.len() + visible(cs@).len()
            &&& forall|i: int| 0 <= i < old(boxes)@.len() ==> final(boxes)@[i] == old(boxes)@[i]
            &&& forall|i: int|
                old(boxes)@.len() <= i < final(boxes)@.len() ==> box_matches(
                    #[trigger] final(boxes)@[i],
                    visible(cs@)[i - old(boxes)@.len()],
                    *old(counter) + i - old(boxes)@.len(),
                    i,
                    margin as int,
                    conf,
                )
            &&& *final(counter) == *old(counter) + visible(cs@).len()
        },
        r matches Err(e) ==> (first_bad_date(cs@) matches Some(d) && e == GenerateError::DataError(
            date_fault(d),
        )),
{
    let k = conf.calling_bubbles_per_row as u128;
    let box_w = conf.calling_bubble_dimensions.width as u128;
    let box_h = conf.calling_bubble_dimensions.height as u128;
    let vm = conf.calling_bubble_vertical_margins as u128;
    let title = conf.org_bubble_title_height as u128;
    let ghost start_len = old(boxes)@.len() as int;
    let ghost start_counter = *old(counter) as int;
    let mut ii: usize = 0;
    while ii < cs.len()
        invariant
            conf.wf(),
            1 <= conf.calling_bubbles_per_row,
            k == conf.calling_bubbles_per_row as u128,
            box_w == conf.calling_bubble_dimensions.width as u128,
            box_h == conf.calling_bubble_dimensions.height as u128,
            vm == conf.calling_bubble_vertical_margins as u128,
            title == conf.org_bubble_title_height as u128,
            margin <= MAX_PARAM as u128,
            cs@.len() <= MAX_PARAM as int,
            ii <= cs@.len(),
            start_len == old(boxes)@.len() as int,
            start_counter == *old(counter) as int,
            start_len <= FLAT_MAX as int,
            start_counter <= 0x1000000000000000000000000u128 as int,
            boxes@.len() == start_len + visible_prefix(cs@, ii as int).len(),
            forall|i: int| 0 <= i < start_len ==> boxes@[i] == old(boxes)@[i],
            forall|i: int|
                start_len <= i < boxes@.len() ==> box_matches(
                    #[trigger] boxes@[i],
                    visible_prefix(cs@, ii as int)[i - start_len],
                    start_counter + i - start_len,
                    i,
                    margin as int,
                    conf,
                ),
            *counter == start_counter + visible_prefix(cs@, ii as int).len(),
            first_bad_prefix(cs@, ii as int) is None,
        decreases cs@.len() - ii,
    {
        proof {
            lemma_visible_prefix_len(cs@, ii as int);
        }
        let ghost vprev = visible_prefix(cs@, ii as int);
        let cal = &cs[ii];
        match &cal.member {
            None => {
                proof {
                    assert(visible_prefix(cs@, ii as int + 1) =~= vprev);
                }
            },
            Some(m) => {
                let since = match m.held_calling_since.to_string() {
                    Ok(s) => s,
                    Err(e) => {
                        proof {
                            let d = m.held_calling_since;
                            assert(first_bad_prefix(cs@, ii as int + 1) == Some(d));
                            lemma_first_bad_persists(cs@, ii as int + 1, cs@.len() as int);
                            assert(e == date_fault(d));
                        }
                        return Err(GenerateError::DataError(e));
                    },
                };
                let vis_idx: u128 = boxes.len() as u128;
                let (x, y) = packed_position(vis_idx, k, box_w, box_h, vm, margin, title);
                let b = BubbleBox {
                    num: *counter,
                    name: sanitize(cal.name.as_str()),
                    last_name: m.last_name.clone(),
                    given_names: m.given_names.clone(),
                    since,
                    x,
                    y,
                };
                boxes.push(b);
                *counter = *counter + 1;
                proof {
                    let vnow = visible_prefix(cs@, ii as int + 1);
                    assert(vnow == vprev + seq![cs@[ii as int]]);
                    assert(vnow.len() == vprev.len() + 1);
                    assert(vnow[vprev.len() as int] == cs@[ii as int]);
                    assert(boxes@[start_len + vprev.len() as int] == b);
                    assert(box_matches(
                        b,
                        cs@[ii as int],
                        start_counter + vprev.len() as int,
                        start_len + vprev.len() as int,
                        margin as int,
                        conf,
                    ));
                    assert forall|i: int| start_len <= i < boxes@.len() implies box_matches(
                        #[trigger] boxes@[i],
                        vnow[i - start_len],
                        start_counter + i - start_len,
                        i,
                        margin as int,
                        conf,
                    ) by {
                        if i < start_len + vprev.len() {
                            assert(vnow[i - start_len] == vprev[i - start_len]);
                        } else {
                            assert(i == start_len + vprev.len());
                        }
                    }
                }
            },
        }
        ii = ii + 1;
    }
    Ok(())
}

pub(crate) proof fn lemma_placed_upto_range(children: Seq<Organization>, i: int)
    requires
        0 <= i <= children.len(),
    ensures
        0 <= placed_upto(children, i) <= i,
    decreases i,
{
    if i > 0 {
        lemma_placed_upto_range(children, i - 1);
    }
}

proof fn lemma_placed_upto_mono(children: Seq<Organization>, i: int, i2: int)
    requires
        0 <= i <= i2 <= children.len(),
    ensures
        placed_upto(children, i) <= placed_upto(children, i2),
        0 <= placed_upto(children, i2) <= i2,
    decreases i2 - i,
{
    lemma_placed_upto_range(children, i);
    lemma_placed_upto_range(children, i2);
    if i2 > i {
        lemma_placed_upto_mono(children, i, i2 - 1);
    }
}

/// Lays out the sub-organization boxes of an organization that has
/// children: one box per child with at least one flattened drawn role,
/// stacked vertically in child order, each child's roles packed into its
/// own grid. Returns the boxes and the organization's clamped total
/// height; the organization's own direct roles are never drawn.
fn layout_children(
    org: &Organization,
    conf: &Config,
    sub_margin: u128,
    min_h: u128,
    counter: &mut u128,
) -> (r: Result<(Vec<SubOrgLayout>, u128), GenerateError>)
    requires
        conf.wf(),
        1 <= conf.calling_bubbles_per_row,
        sub_margin == sub_left_margin(conf),
        sub_margin <= MAX_PARAM as u128,
        min_h == minimum_org_height(conf),
        org_tree_bounded(*org),
        org.children@.len() > 0,
        *old(counter) <= 3_000_000_000_000_000_000_000_000u128,
    ensures
        r is Ok <==> org_first_bad(*org) is None,
        r matches Ok(p) ==> {
            &&& subs_match(p.0@, org.children@, *old(counter) as int, conf)
            &&& p.1 as int == org_height_spec(*org, conf)
            &&& *final(counter) == *old(counter) + drawn_count(*org)
        },
        r matches Err(e) ==> (org_first_bad(*org) matches Some(d) && e == GenerateError::DataError(
            date_fault(d),
        )),
{
    let ghost children = org.children@;
    let ghost org_base = *old(counter) as int;
    let title = conf.org_bubble_title_height as u128;
    let sub_v = conf.sub_org_bubble_vertical_margins as u128;
    let mut subs: Vec<SubOrgLayout> = Vec::new();
    let mut sub_y: u128 = title;
    let mut ci: usize = 0;
    while ci < org.children.len()
        invariant
            conf.wf(),
            1 <= conf.calling_bubbles_per_row,
            sub_margin == sub_left_margin(conf),
            sub_margin <= MAX_PARAM as u128,
            title == conf.org_bubble_title_height as u128,
            sub_v == conf.sub_org_bubble_vertical_margins as u128,
            org_tree_bounded(*org),
            children == org.children@,
            children.len() > 0,
            children.len() <= MAX_PARAM as int,
            ci <= children.len(),
            org_base == *old(counter) as int,
            org_base >= 0,
            org_base <= 3_000_000_000_000_000_000_000_000u128 as int,
            *counter as int == org_base + children_flat_prefix_len(children, ci as int),
            sub_y as int == title as int + sub_stack_prefix(children, ci as int, conf),
            subs@.len() == placed_upto(children, ci as int),
            forall|cii: int|
                0 <= cii < ci && flat_visible(#[trigger] children[cii]).len() > 0 ==> sub_matches(
                    subs@[placed_upto(children, cii)],
                    children[cii],
                    sub_y_spec(children, cii, conf),
                    org_base + children_flat_prefix_len(children, cii),
                    conf,
                ),
            children_first_bad_prefix(children, ci as int) is None,
        decreases children.len() - ci,
    {
        let child = &org.children[ci];
        proof {
            assert(child_bounded(children[ci as int]));
            lemma_flat_visible_len(children[ci as int]);
            lemma_children_flat_len_bounds(children, ci as int);
            lemma_sub_stack_bounds(children, ci as int, conf);
            lemma_visible_prefix_len(child.callings@, child.callings@.len() as int);
        }
        let mut cboxes: Vec<BubbleBox> = Vec::new();
        let ghost child_base = *counter as int;
        match place_from(&child.callings, conf, sub_margin, &mut cboxes, counter) {
            Ok(()) => {},
            Err(e) => {
                proof {
                    assert(child_first_bad(children[ci as int]) is Some);
                    assert(children_first_bad_prefix(children, ci as int + 1) is Some);
                    lemma_children_first_bad_persists(children, ci as int + 1, children.len() as int);
                    assert(org_first_bad(*org) is Some);
                }
                return Err(e);
            },
        }
        proof {
            assert(visible(child.callings@) + grand_visible_prefix(
                children[ci as int].children@,
                0,
            ) =~= visible(child.callings@));
        }
        let mut gi: usize = 0;
        let ghost grands = children[ci as int].children@;
        while gi < child.children.len()
            invariant
                conf.wf(),
                1 <= conf.calling_bubbles_per_row,
                sub_margin == sub_left_margin(conf),
                sub_margin <= MAX_PARAM as u128,
                org_tree_bounded(*org),
                children == org.children@,
                children.len() > 0,
                child_bounded(children[ci as int]),
                ci < children.len(),
                children_first_bad_prefix(children, ci as int) is None,
                grands == children[ci as int].children@,
                child.children@ == grands,
                child.callings@ == children[ci as int].callings@,
                gi <= grands.len(),
                grands.len() <= MAX_PARAM as int,
                child_base >= 0,
                child_base <= 4_000_000_000_000_000_000_000_000u128 as int,
                cboxes@.len() == visible(child.callings@).len() + grand_visible_prefix(
                    grands,
                    gi as int,
                ).len(),
                cboxes@.len() <= FLAT_MAX as int,
                *counter as int == child_base + cboxes@.len(),
                forall|i: int|
                    0 <= i < cboxes@.len() ==> box_matches(
                        #[trigger] cboxes@[i],
                        (visible(child.callings@) + grand_visible_prefix(grands, gi as int))[i],
                        child_base + i,
                        i,
                        sub_margin as int,
                        conf,
                    ),
                first_bad_date(child.callings@) is None,
                grand_first_bad_prefix(grands, gi as int) is None,
            decreases grands.len() - gi,
        {
            let grand = &child.children[gi];
            proof {
                assert(grands[gi as int].callings@.len() <= MAX_PARAM as int);
                lemma_visible_prefix_len(grand.callings@, grand.callings@.len() as int);
                lemma_grand_visible_len(grands, gi as int + 1);
                lemma_visible_prefix_len(child.callings@, child.callings@.len() as int);
            }
            let ghost fprev = visible(child.callings@) + grand_visible_prefix(grands, gi as int);
            let ghost cprev = cboxes@;
            match place_from(&grand.callings, conf, sub_margin, &mut cboxes, counter) {
                Ok(()) => {},
                Err(e) => {
                    proof {
                        assert(grand_first_bad_prefix(grands, gi as int + 1) is Some);
                        lemma_grand_first_bad_persists(grands, gi as int + 1, grands.len() as int);
                        assert(child_first_bad(children[ci as int]) is Some);
                        assert(children_first_bad_prefix(children, ci as int + 1) is Some);
                        lemma_children_first_bad_persists(
                            children,
                            ci as int + 1,
                            children.len() as int,
                        );
                        assert(org_first_bad(*org) is Some);
                    }
                    return Err(e);
                },
            }
            proof {
                let fnow = visible(child.callings@) + grand_visible_prefix(grands, gi as int + 1);
                assert(grand_visible_prefix(grands, gi as int + 1) == grand_visible_prefix(
                    grands,
                    gi as int,
                ) + visible(grand.callings@));
                assert(fnow =~= fprev + visible(grand.callings@));
                assert forall|i: int| 0 <= i < fnow.len() implies box_matches(
                    #[trigger] cboxes@[i],
                    fnow[i],
                    child_base + i,
                    i,
                    sub_margin as int,
                    conf,
                ) by {
                    if i < fprev.len() {
                        assert(cboxes@[i] == cprev[i]);
                        assert(box_matches(
                            cprev[i],
                            fprev[i],
                            child_base + i,
                            i,
                            sub_margin as int,
                            conf,
                        ));
                        assert(fnow[i] == fprev[i]);
                    } else {
                        assert(box_matches(
                            cboxes@[i],
                            visible(grand.callings@)[i - cprev.len()],
                            child_base + i,
                            i,
                            sub_margin as int,
                            conf,
                        ));
                        assert(fnow[i] == visible(grand.callings@)[i - fprev.len()]);
                    }
                }
            }
            gi = gi + 1;
        }
        proof {
            assert(visible(child.callings@) + grand_visible_prefix(grands, grands.len() as int)
                == flat_visible(children[ci as int]));
            assert(child_first_bad(children[ci as int]) is None);
            assert(children_first_bad_prefix(children, ci as int + 1) is None);
        }
        if cboxes.len() == 0 {
            proof {
                assert(flat_visible(children[ci as int]).len() == 0);
                assert(sub_stack_prefix(children, ci as int + 1, conf) == sub_stack_prefix(
                    children,
                    ci as int,
                    conf,
                ));
                assert(placed_upto(children, ci as int + 1) == placed_upto(children, ci as int));
                assert(children_flat_prefix_len(children, ci as int + 1)
                    == children_flat_prefix_len(children, ci as int));
            }
        } else {
            proof {
                lemma_container_height_bounds(flat_visible(children[ci as int]).len() as int, conf);
            }
            let n = cboxes.len();
            let height = container_height(n as u128, conf);
            sub_y = sub_y + sub_v;
            let ghost cboxes_view = cboxes@;
            let sl = SubOrgLayout {
                name: sanitize(child.name.as_str()),
                id_base: id_base(child.name.as_str()),
                y: sub_y,
                height,
                callings: cboxes,
            };
            proof {
                assert(sl.callings@ == cboxes_view);
                assert(sub_y as int == sub_y_spec(children, ci as int, conf));
                assert(sub_matches(
                    sl,
                    children[ci as int],
                    sub_y_spec(children, ci as int, conf),
                    org_base + children_flat_prefix_len(children, ci as int),
                    conf,
                ));
            }
            let ghost subs_prev = subs@;
            subs.push(sl);
            sub_y = sub_y + height;
            proof {
                assert(subs@ == subs_prev.push(sl));
                assert(placed_upto(children, ci as int + 1) == placed_upto(children, ci as int)
                    + 1);
                assert(sub_stack_prefix(children, ci as int + 1, conf) == sub_stack_prefix(
                    children,
                    ci as int,
                    conf,
                ) + sub_v + container_height_spec(
                    flat_visible(children[ci as int]).len() as int,
                    conf,
                ));
                assert(children_flat_prefix_len(children, ci as int + 1)
                    == children_flat_prefix_len(children, ci as int) + flat_visible(
                    children[ci as int],
                ).len());
                assert forall|cii: int|
                    0 <= cii < ci as int + 1 && flat_visible(#[trigger] children[cii]).len() > 0
                        implies sub_matches(
                    subs@[placed_upto(children, cii)],
                    children[cii],
                    sub_y_spec(children, cii, conf),
                    org_base + children_flat_prefix_len(children, cii),
                    conf,
                ) by {
                    if cii < ci as int {
                        assert(placed_upto(children, cii + 1) == placed_upto(children, cii) + 1);
                        lemma_placed_upto_mono(children, 0, cii);
                        lemma_placed_upto_mono(children, cii + 1, ci as int);
                        assert(0 <= placed_upto(children, cii) < subs_prev.len());
                        assert(subs@[placed_upto(children, cii)] == subs_prev[placed_upto(
                            children,
                            cii,
                        )]);
                        assert(sub_matches(
                            subs_prev[placed_upto(children, cii)],
                            children[cii],
                            sub_y_spec(children, cii, conf),
                            org_base + children_flat_prefix_len(children, cii),
                            conf,
                        ));
                    } else {
                        assert(placed_upto(children, cii) == subs_prev.len());
                        assert(subs@[placed_upto(children, cii)] == sl);
                    }
                }
            }
        }
        ci = ci + 1;
    }
    proof {
        lemma_sub_stack_bounds(children, children.len() as int, conf);
        assert(children_flat_prefix_len(children, children.len() as int) == drawn_count(*org));
        assert(children_first_bad_prefix(children, children.len() as int) == org_first_bad(*org));
    }
    let span = sub_y + sub_v;
    let height = if span < min_h {
        min_h
    } else {
        span
    };
    proof {
        assert(height as int == org_height_spec(*org, conf));
    }
    Ok((subs, height))
}

/// Computes the full layout of the diagram: for each ordering entry, in
/// order, the named organization's box at the running cursor, its drawn
/// role boxes packed directly when it has no children, and otherwise one
/// sub-organization box per child with flattened drawn roles, stacked
/// vertically. An organization with children never draws its own direct
/// roles: they are dropped silently, as the layout policy prescribes.
///
/// Fails, producing no layout, exactly on the first fault in
/// [`layout_fault`] order: a non-positive row capacity, an infeasible
/// margin, an ordering entry naming an organization absent from the tree,
/// or an invalid holder date on a drawn role.
#[verifier::rlimit(100)]
pub fn compute_layout(orgs: &Vec<Organization>, conf: &Config) -> (r: Result<Layout, GenerateError>)
    requires
        conf.wf(),
        orgs_bounded(orgs@),
    ensures
        r is Ok <==> layout_fault(orgs@, conf) is None,
        r matches Ok(l) ==> layout_matches(l, orgs@, conf),
        r is Err ==> match layout_fault(orgs@, conf) {
            Some(LayoutFault::NonPositiveCapacity) => r matches Err(
                GenerateError::InvalidLayout(m),
            ) && m@ == "Calling bubbles per row must be positive"@,
            Some(LayoutFault::InfeasibleMargin) => r matches Err(GenerateError::InvalidLayout(m))
                && m@ == "Org bubble width too small"@,
            Some(LayoutFault::UnknownOrg { entry }) => r matches Err(
                GenerateError::InvalidLayout(m),
            ) && m@ == "Unrecognized org name: "@ + conf.org_ordering@[entry].name@,
            Some(LayoutFault::BadDate { date }) => r == Err::<Layout, GenerateError>(
                GenerateError::DataError(date_fault(date)),
            ),
            None => false,
        },
{
    if conf.calling_bubbles_per_row <= 0 {
        return Err(
            GenerateError::InvalidLayout(
                String::from_str("Calling bubbles per row must be positive"),
            ),
        );
    }
    let k = conf.calling_bubbles_per_row as u128;
    let box_w = conf.calling_bubble_dimensions.width as u128;
    let box_h = conf.calling_bubble_dimensions.height as u128;
    let vm = conf.calling_bubble_vertical_margins as u128;
    let title = conf.org_bubble_title_height as u128;
    let org_w = conf.org_bubble_width as u128;
    let inset = conf.sub_org_bubble_horzontal_margins as u128;
    let sub_v = conf.sub_org_bubble_vertical_margins as u128;
    let min_marg = conf.calling_bubble_min_horizontal_margin as u128;
    let top = conf.org_bubble_margins.top as u128;
    let right = conf.org_bubble_margins.right as u128;
    let bottom = conf.org_bubble_margins.bottom as u128;
    let left = conf.org_bubble_margins.left as u128;
    let start_x = conf.diagram_start_x as u128;
    let start_y = conf.diagram_start_y as u128;
    proof {
        lemma_mul_upper_bound(box_w as int, MAX_PARAM as int, k as int, MAX_PARAM as int);
        lemma_mul_upper_bound(min_marg as int, MAX_PARAM as int, k as int + 1, MAX_PARAM as int + 1);
    }
    let row_w = box_w * k;
    if org_w < 2 * inset + row_w + min_marg * (k + 1) {
        return Err(GenerateError::InvalidLayout(String::from_str("Org bubble width too small")));
    }
    let sub_w = org_w - 2 * inset;
    proof {
        lemma_div_nonincreasing((org_w - row_w) as int, k as int + 1);
        lemma_div_nonincreasing((sub_w - row_w) as int, k as int + 1);
        vstd::arithmetic::div_mod::lemma_div_pos_is_pos((org_w - row_w) as int, k as int + 1);
        vstd::arithmetic::div_mod::lemma_div_pos_is_pos((sub_w - row_w) as int, k as int + 1);
    }
    let org_margin = (org_w - row_w) / (k + 1);
    let sub_margin = (sub_w - row_w) / (k + 1);
    let min_h = title + box_h + 2 * vm;
    let mut out: Vec<OrgLayout> = Vec::new();
    let mut cx: u128 = start_x;
    let mut cy: u128 = start_y;
    let mut counter: u128 = 0;
    let mut j: usize = 0;
    while j < conf.org_ordering.len()
        invariant
            conf.wf(),
            orgs_bounded(orgs@),
            1 <= conf.calling_bubbles_per_row,
            feasible(conf),
            k == conf.calling_bubbles_per_row as u128,
            box_w == conf.calling_bubble_dimensions.width as u128,
            box_h == conf.calling_bubble_dimensions.height as u128,
            vm == conf.calling_bubble_vertical_margins as u128,
            title == conf.org_bubble_title_height as u128,
            org_w == conf.org_bubble_width as u128,
            inset == conf.sub_org_bubble_horzontal_margins as u128,
            sub_v == conf.sub_org_bubble_vertical_margins as u128,
            top == conf.org_bubble_margins.top as u128,
            right == conf.org_bubble_margins.right as u128,
            bottom == conf.org_bubble_margins.bottom as u128,
            left == conf.org_bubble_margins.left as u128,
            start_x == conf.diagram_start_x as u128,
            start_y == conf.diagram_start_y as u128,
            row_w == row_width(conf),
            sub_w == sub_org_width(conf),
            org_margin == org_left_margin(conf),
            sub_margin == sub_left_margin(conf),
            org_margin <= MAX_PARAM as u128,
            sub_margin <= MAX_PARAM as u128,
            min_h == minimum_org_height(conf),
            j <= conf.org_ordering@.len(),
            out@.len() == j,
            forall|jx: int|
                0 <= jx < j ==> org_layout_matches(#[trigger] out@[jx], orgs@, conf, jx),
            cx as int == cursor_x_before(conf, j as int),
            cy as int == cursor_y_before(orgs@, conf, j as int),
            counter as int == counter_before(orgs@, conf, j as int),
            entries_fault_prefix(orgs@, conf, j as int) is None,
            cx as int <= 1_000_000 + (j as int) * 3_000_000,
            cy as int <= 1_000_000 + (j as int) * (Y_STEP as int),
            counter as int <= (j as int) * (DRAWN_MAX as int),
        decreases conf.org_ordering@.len() - j,
    {
        let entry = &conf.org_ordering[j];
        let ghost ename = entry.name@;
        let ghost jj = j as int;
        let mut t: usize = 0;
        let mut found: bool = false;
        let mut t_idx: usize = 0;
        while t < orgs.len() && !found
            invariant
                ename == entry.name@,
                t <= orgs@.len(),
                found ==> t_idx < orgs@.len() && orgs@[t_idx as int].name@ == ename && find_org(
                    orgs@,
                    ename,
                ) == Some(t_idx as int),
                !found ==> find_org(orgs@, ename) == find_org_from(orgs@, ename, t as int),
            decreases orgs@.len() - t, (if found { 0int } else { 1int }),
        {
            if orgs[t].name == entry.name {
                found = true;
                t_idx = t;
                proof {
                    assert(find_org_from(orgs@, ename, t as int) == Some(t as int));
                }
            } else {
                proof {
                    assert(find_org_from(orgs@, ename, t as int) == find_org_from(
                        orgs@,
                        ename,
                        t as int + 1,
                    ));
                }
                t = t + 1;
            }
        }
        if !found {
            proof {
                assert(find_org(orgs@, ename) is None);
                assert(entry_fault(orgs@, conf, jj) == Some(LayoutFault::UnknownOrg { entry: jj }));
                assert(entries_fault_prefix(orgs@, conf, jj + 1) == Some(
                    LayoutFault::UnknownOrg { entry: jj },
                ));
                lemma_entries_fault_persists(orgs@, conf, jj + 1, conf.org_ordering@.len() as int);
            }
            return Err(
                GenerateError::InvalidLayout(
                    String::from_str("Unrecognized org name: ").concat(entry.name.as_str()),
                ),
            );
        }
        let org = &orgs[t_idx];
        proof {
            assert(org_tree_bounded(orgs@[t_idx as int]));
            lemma_org_height_bounds(orgs@[t_idx as int], conf);
            lemma_drawn_count_bounds(orgs@[t_idx as int]);
            assert(resolved(orgs@, conf, jj) == orgs@[t_idx as int]);
        }
        if entry.begins_new_column {
            cx = cx + (org_w + right + left);
            cy = start_y;
        }
        cy = cy + top;
        let org_x = cx;
        let org_y = cy;
        let ghost org_base = counter as int;
        proof {
            assert(org_x as int == org_x_pos(conf, jj));
            assert(org_y as int == org_y_pos(orgs@, conf, jj));
            assert(cursor_x_before(conf, jj + 1) == cx as int);
            assert(org_base == counter_before(orgs@, conf, jj));
            assert(org_base <= 2_000_000_000_000_000_000_000_000int);
        }
        let height: u128;
        let ol: OrgLayout;
        if org.children.len() == 0 {
            let mut boxes: Vec<BubbleBox> = Vec::new();
            match place_from(&org.callings, conf, org_margin, &mut boxes, &mut counter) {
                Ok(()) => {},
                Err(e) => {
                    proof {
                        assert(org_first_bad(orgs@[t_idx as int]) is Some);
                        assert(entries_fault_prefix(orgs@, conf, jj + 1) is Some);
                        lemma_entries_fault_persists(
                            orgs@,
                            conf,
                            jj + 1,
                            conf.org_ordering@.len() as int,
                        );
                    }
                    return Err(e);
                },
            }
            proof {
                lemma_visible_prefix_len(org.callings@, org.callings@.len() as int);
            }
            let n = boxes.len();
            let h = container_height(n as u128, conf);
            proof {
                lemma_container_height_bounds(n as int, conf);
            }
            let ghost boxes_view = boxes@;
            height = h;
            ol = OrgLayout {
                name: sanitize(org.name.as_str()),
                id_base: id_base(org.name.as_str()),
                x: org_x,
                y: org_y,
                height,
                callings: boxes,
                sub_orgs: Vec::new(),
            };
            proof {
                let o = orgs@[t_idx as int];
                assert(height as int == org_height_spec(o, conf));
                assert(ol.callings@ == boxes_view);
                assert forall|i: int| 0 <= i < visible(o.callings@).len() implies box_matches(
                    #[trigger] ol.callings@[i],
                    visible(o.callings@)[i],
                    counter_before(orgs@, conf, jj) + i,
                    i,
                    org_left_margin(conf),
                    conf,
                ) by {
                    assert(ol.callings@[i] == boxes_view[i]);
                    assert(box_matches(
                        boxes_view[i],
                        visible(o.callings@)[i - 0],
                        org_base + i - 0,
                        i,
                        org_margin as int,
                        conf,
                    ));
                }
                assert(org_layout_matches(ol, orgs@, conf, jj));
                assert(drawn_count(o) == visible(o.callings@).len());
                assert(counter_before(orgs@, conf, jj + 1) == counter as int);
                assert(entry_fault(orgs@, conf, jj) is None);
            }
        } else {
            match layout_children(org, conf, sub_margin, min_h, &mut counter) {
                Ok(p) => {
                    let (subs, h) = p;
                    let ghost subs_view = subs@;
                    height = h;
                    ol = OrgLayout {
                        name: sanitize(org.name.as_str()),
                        id_base: id_base(org.name.as_str()),
                        x: org_x,
                        y: org_y,
                        height,
                        callings: Vec::new(),
                        sub_orgs: subs,
                    };
                    proof {
                        let o = orgs@[t_idx as int];
                        assert(ol.sub_orgs@ == subs_view);
                        assert(height as int == org_height_spec(o, conf));
                        assert(subs_match(ol.sub_orgs@, o.children@, org_base, conf));
                        assert(org_layout_matches(ol, orgs@, conf, jj));
                        assert(counter_before(orgs@, conf, jj + 1) == counter as int);
                        assert(entry_fault(orgs@, conf, jj) is None);
                    }
                },
                Err(e) => {
                    proof {
                        assert(org_first_bad(orgs@[t_idx as int]) is Some);
                        assert(entries_fault_prefix(orgs@, conf, jj + 1) is Some);
                        lemma_entries_fault_persists(
                            orgs@,
                            conf,
                            jj + 1,
                            conf.org_ordering@.len() as int,
                        );
                    }
                    return Err(e);
                },
            }
        }
        proof {
            assert(height as int == org_height_spec(orgs@[t_idx as int], conf));
            assert(height as int <= ORG_HEIGHT_MAX as int);
        }
        out.push(ol);
        cy = cy + height + bottom;
        j = j + 1;
        proof {
            assert(cursor_y_before(orgs@, conf, j as int) == cy as int);
            assert(counter_before(orgs@, conf, j as int) == counter as int);
            assert(entries_fault_prefix(orgs@, conf, j as int) is None);
        }
    }
    Ok(
        Layout {
            orgs: out,
            org_width: org_w,
            sub_org_width: sub_w,
            sub_org_inset: inset,
            box_width: box_w,
            box_height: box_h,
        },
    )
}

/// Grid placements never overlap: for two distinct visible indices at any
/// per-row capacity of at least one, and boxes of positive width and
/// height, the two rectangles `[x, x + w) x [y, y + h)` are separated on
/// at least one axis, so their intersection has zero area.
pub proof fn lemma_packed_no_overlap(
    i: int,
    j: int,
    k: int,
    margin: int,
    w: int,
    h: int,
    title: int,
    vm: int,
)
    requires
        k >= 1,
        w >= 1,
        h >= 1,
        vm >= 0,
        margin >= 0,
        title >= 0,
        i >= 0,
        j >= 0,
        i != j,
    ensures
        packed_x(i, k, margin, w) + w <= packed_x(j, k, margin, w) || packed_x(j, k, margin, w)
            + w <= packed_x(i, k, margin, w) || packed_y(i, k, title, vm, h) + h <= packed_y(
            j,
            k,
            title,
            vm,
            h,
        ) || packed_y(j, k, title, vm, h) + h <= packed_y(i, k, title, vm, h),
{
    let ri = i / k;
    let ci = i % k;
    let rj = j / k;
    let cj = j % k;
    vstd::arithmetic::div_mod::lemma_fundamental_div_mod(i, k);
    vstd::arithmetic::div_mod::lemma_fundamental_div_mod(j, k);
    if ri == rj {
        assert(ci != cj);
        if ci < cj {
            assert((ci + 1) * margin + ci * w + w <= (cj + 1) * margin + cj * w)
                by (nonlinear_arith)
                requires
                    ci < cj,
                    margin >= 0,
                    w >= 1,
            ;
        } else {
            assert((cj + 1) * margin + cj * w + w <= (ci + 1) * margin + ci * w)
                by (nonlinear_arith)
                requires
                    cj < ci,
                    margin >= 0,
                    w >= 1,
            ;
        }
    } else {
        if ri < rj {
            assert(title + vm + ri * (h + vm) + h <= title + vm + rj * (h + vm))
                by (nonlinear_arith)
                requires
                    ri < rj,
                    h >= 1,
                    vm >= 0,
            ;
        } else {
            assert(title + vm + rj * (h + vm) + h <= title + vm + ri * (h + vm))
                by (nonlinear_arith)
                requires
                    rj < ri,
                    h >= 1,
                    vm >= 0,
            ;
        }
    }
}

proof fn lemma_empty_children_stack(children: Seq<Organization>, i: int, c: &Config)
    requires
        0 <= i <= children.len(),
        forall|ci: int|
            0 <= ci < children.len() ==> flat_visible(#[trigger] children[ci]).len() == 0,
    ensures
        sub_stack_prefix(children, i, c) == 0,
        placed_upto(children, i) == 0,
    decreases i,
{
    if i > 0 {
        lemma_empty_children_stack(children, i - 1, c);
    }
}

/// An organization with children but not a single flattened drawn role
/// anywhere below it gets a box of exactly the global minimum height, and
/// no sub-organization boxes at all. This holds whenever the
/// sub-organization stacking margin does not exceed one role-box height
/// plus two vertical margins; a larger stacking margin pushes the empty
/// stack above the minimum.
pub proof fn lemma_all_children_empty_minimum(o: Organization, c: &Config)
    requires
        c.wf(),
        o.children@.len() > 0,
        forall|ci: int|
            0 <= ci < o.children@.len() ==> flat_visible(#[trigger] o.children@[ci]).len() == 0,
        c.sub_org_bubble_vertical_margins <= c.calling_bubble_dimensions.height + 2
            * c.calling_bubble_vertical_margins,
    ensures
        org_height_spec(o, c) == minimum_org_height(c),
        placed_upto(o.children@, o.children@.len() as int) == 0,
{
    lemma_empty_children_stack(o.children@, o.children@.len() as int, c);
}

fn check_child_bounded(ch: &Organization) -> (r: bool)
    ensures
        r == child_bounded(*ch),
{
    if ch.callings.len() > MAX_PARAM as usize || ch.children.len() > MAX_PARAM as usize {
        return false;
    }
    let mut g: usize = 0;
    while g < ch.children.len()
        invariant
            g <= ch.children@.len(),
            ch.callings@.len() <= MAX_PARAM as int,
            ch.children@.len() <= MAX_PARAM as int,
            forall|u: int|
                0 <= u < g ==> (#[trigger] ch.children@[u]).callings@.len() <= MAX_PARAM as int,
        decreases ch.children@.len() - g,
    {
        if ch.children[g].callings.len() > MAX_PARAM as usize {
            return false;
        }
        g = g + 1;
    }
    true
}

fn check_org_tree_bounded(o: &Organization) -> (r: bool)
    ensures
        r == org_tree_bounded(*o),
{
    if o.callings.len() > MAX_PARAM as usize || o.children.len() > MAX_PARAM as usize {
        return false;
    }
    let mut i: usize = 0;
    while i < o.children.len()
        invariant
            i <= o.children@.len(),
            o.callings@.len() <= MAX_PARAM as int,
            o.children@.len() <= MAX_PARAM as int,
            forall|u: int| 0 <= u < i ==> child_bounded(#[trigger] o.children@[u]),
        decreases o.children@.len() - i,
    {
        if !check_child_bounded(&o.children[i]) {
            return false;
        }
        i = i + 1;
    }
    true
}

/// Runtime test for [`orgs_bounded`], for callers outside verified code.
pub fn check_orgs_bounded(orgs: &Vec<Organization>) -> (r: bool)
    ensures
        r == orgs_bounded(orgs@),
{
    if orgs.len() > MAX_PARAM as usize {
        return false;
    }
    let mut t: usize = 0;
    while t < orgs.len()
        invariant
            t <= orgs@.len(),
            orgs@.len() <= MAX_PARAM as int,
            forall|u: int| 0 <= u < t ==> org_tree_bounded(#[trigger] orgs@[u]),
        decreases orgs@.len() - t,
    {
        if !check_org_tree_bounded(&orgs[t]) {
            return false;
        }
        t = t + 1;
    }
    true
}

pub(crate) proof fn lemma_find_org_in_range(orgs: Seq<Organization>, name: Seq<char>, i: int)
    requires
        find_org_from(orgs, name, i) is Some,
    ensures
        i <= find_org_from(orgs, name, i)->0 < orgs.len(),
    decreases orgs.len() - i,
{
    if 0 <= i < orgs.len() && orgs[i].name@ != name {
        lemma_find_org_in_range(orgs, name, i + 1);
    }
}

pub(crate) proof fn lemma_entry_fault_none_of_prefix(
    orgs: Seq<Organization>,
    c: &Config,
    j: int,
    j2: int,
)
    requires
        0 <= j < j2 <= c.org_ordering@.len(),
        entries_fault_prefix(orgs, c, j2) is None,
    ensures
        entry_fault(orgs, c, j) is None,
        entries_fault_prefix(orgs, c, j) is None,
{
    if entries_fault_prefix(orgs, c, j) is Some {
        lemma_entries_fault_persists(orgs, c, j, j2);
    }
    if entry_fault(orgs, c, j) is Some {
        lemma_entries_fault_persists(orgs, c, j + 1, j2);
    }
}
pub(crate) proof fn lemma_placed_index_surjective(children: Seq<Organization>, si: int, i: int)
    requires
        0 <= i <= children.len(),
        0 <= si < placed_upto(children, i),
    ensures
        exists|ci: int|
            0 <= ci < i && flat_visible(#[trigger] children[ci]).len() > 0 && placed_upto(
                children,
                ci,
            ) == si,
    decreases i,
{
    lemma_placed_upto_range(children, i);
    if i > 0 {
        if flat_visible(children[i - 1]).len() > 0 && placed_upto(children, i - 1) == si {
            assert(flat_visible(children[i - 1]).len() > 0 && placed_upto(children, i - 1) == si);
        } else {
            lemma_placed_index_surjective(children, si, i - 1);
        }
    }
}
proof fn lemma_visible_prefix_agree(s1: Seq<Calling>, s2: Seq<Calling>, i: int)
    requires
        0 <= i <= s1.len(),
        i <= s2.len(),
        forall|u: int| 0 <= u < i ==> s1[u] == s2[u],
    ensures
        visible_prefix(s1, i) == visible_prefix(s2, i),
    decreases i,
{
    if i > 0 {
        lemma_visible_prefix_agree(s1, s2, i - 1);
    }
}

proof fn lemma_first_bad_prefix_agree(s1: Seq<Calling>, s2: Seq<Calling>, i: int)
    requires
        0 <= i <= s1.len(),
        i <= s2.len(),
        forall|u: int| 0 <= u < i ==> s1[u] == s2[u],
    ensures
        first_bad_prefix(s1, i) == first_bad_prefix(s2, i),
    decreases i,
{
    if i > 0 {
        lemma_first_bad_prefix_agree(s1, s2, i - 1);
    }
}

proof fn lemma_visible_prefix_shift(cs: Seq<Calling>, idx: int, i: int)
    requires
        0 <= idx < cs.len(),
        cs[idx].member is None,
        idx <= i <= cs.len() - 1,
    ensures
        visible_prefix(cs.remove(idx), i) == visible_prefix(cs, i + 1),
    decreases i,
{
    let cs2 = cs.remove(idx);
    if i == idx {
        lemma_visible_prefix_agree(cs2, cs, idx);
    } else {
        lemma_visible_prefix_shift(cs, idx, i - 1);
        assert(cs2[i - 1] == cs[i]);
    }
}

proof fn lemma_first_bad_prefix_shift(cs: Seq<Calling>, idx: int, i: int)
    requires
        0 <= idx < cs.len(),
        cs[idx].member is None,
        idx <= i <= cs.len() - 1,
    ensures
        first_bad_prefix(cs.remove(idx), i) == first_bad_prefix(cs, i + 1),
    decreases i,
{
    let cs2 = cs.remove(idx);
    if i == idx {
        lemma_first_bad_prefix_agree(cs2, cs, idx);
    } else {
        lemma_first_bad_prefix_shift(cs, idx, i - 1);
        assert(cs2[i - 1] == cs[i]);
    }
}

/// Removing a vacant role leaves the drawn roles untouched.
proof fn lemma_visible_remove_vacant(cs: Seq<Calling>, idx: int)
    requires
        0 <= idx < cs.len(),
        cs[idx].member is None,
    ensures
        visible(cs.remove(idx)) == visible(cs),
        first_bad_date(cs.remove(idx)) == first_bad_date(cs),
{
    if idx == cs.len() - 1 {
        lemma_visible_prefix_agree(cs.remove(idx), cs, idx);
        lemma_first_bad_prefix_agree(cs.remove(idx), cs, idx);
    } else {
        lemma_visible_prefix_shift(cs, idx, cs.len() - 1);
        lemma_first_bad_prefix_shift(cs, idx, cs.len() - 1);
    }
}

/// The two trees differ only in that organization `t`'s own role list has
/// the vacant role at `idx` removed.
pub open spec fn vacant_role_removed(
    orgs1: Seq<Organization>,
    orgs2: Seq<Organization>,
    t: int,
    idx: int,
) -> bool {
    &&& 0 <= t < orgs1.len()
    &&& orgs2.len() == orgs1.len()
    &&& forall|u: int| 0 <= u < orgs1.len() && u != t ==> orgs2[u] == orgs1[u]
    &&& orgs2[t].name == orgs1[t].name
    &&& orgs2[t].children == orgs1[t].children
    &&& 0 <= idx < orgs1[t].callings@.len()
    &&& orgs1[t].callings@[idx].member is None
    &&& orgs2[t].callings@ == orgs1[t].callings@.remove(idx)
}

proof fn lemma_find_org_equal(
    orgs1: Seq<Organization>,
    orgs2: Seq<Organization>,
    name: Seq<char>,
    i: int,
)
    requires
        orgs1.len() == orgs2.len(),
        forall|u: int| 0 <= u < orgs1.len() ==> orgs1[u].name@ == #[trigger] orgs2[u].name@,
    ensures
        find_org_from(orgs2, name, i) == find_org_from(orgs1, name, i),
    decreases orgs1.len() - i,
{
    if 0 <= i < orgs1.len() {
        lemma_find_org_equal(orgs1, orgs2, name, i + 1);
    }
}

proof fn lemma_vacant_org_equal(orgs1: Seq<Organization>, orgs2: Seq<Organization>, t: int, idx: int, c: &Config)
    requires
        vacant_role_removed(orgs1, orgs2, t, idx),
    ensures
        forall|u: int| 0 <= u < orgs1.len() ==> orgs1[u].name@ == #[trigger] orgs2[u].name@,
        forall|u: int|
            0 <= u < orgs1.len() ==> org_height_spec(#[trigger] orgs2[u], c) == org_height_spec(
                orgs1[u],
                c,
            ),
        forall|u: int|
            0 <= u < orgs1.len() ==> drawn_count(#[trigger] orgs2[u]) == drawn_count(orgs1[u]),
        forall|u: int|
            0 <= u < orgs1.len() ==> org_first_bad(#[trigger] orgs2[u]) == org_first_bad(orgs1[u]),
        visible(orgs2[t].callings@) == visible(orgs1[t].callings@),
{
    lemma_visible_remove_vacant(orgs1[t].callings@, idx);
    assert forall|u: int| 0 <= u < orgs1.len() implies org_height_spec(
        #[trigger] orgs2[u],
        c,
    ) == org_height_spec(orgs1[u], c) && drawn_count(orgs2[u]) == drawn_count(orgs1[u])
        && org_first_bad(orgs2[u]) == org_first_bad(orgs1[u]) && orgs1[u].name@
        == orgs2[u].name@ by {
        if u == t {
            assert(orgs2[t].children@ == orgs1[t].children@);
        }
    }
}

proof fn lemma_vacant_scan_equal(
    orgs1: Seq<Organization>,
    orgs2: Seq<Organization>,
    t: int,
    idx: int,
    c: &Config,
    j: int,
)
    requires
        vacant_role_removed(orgs1, orgs2, t, idx),
        0 <= j <= c.org_ordering@.len(),
    ensures
        entries_fault_prefix(orgs2, c, j) == entries_fault_prefix(orgs1, c, j),
        entries_fault_prefix(orgs1, c, j) is None ==> cursor_y_before(orgs2, c, j)
            == cursor_y_before(orgs1, c, j) && counter_before(orgs2, c, j) == counter_before(
            orgs1,
            c,
            j,
        ),
    decreases j,
{
    lemma_vacant_org_equal(orgs1, orgs2, t, idx, c);
    if j > 0 {
        lemma_vacant_scan_equal(orgs1, orgs2, t, idx, c, j - 1);
        let name = c.org_ordering@[j - 1].name@;
        lemma_find_org_equal(orgs1, orgs2, name, 0);
        if find_org(orgs1, name) is Some {
            lemma_find_org_in_range(orgs1, name, 0);
        }
        if entries_fault_prefix(orgs1, c, j) is None {
            lemma_entry_fault_none_of_prefix(orgs1, c, j - 1, j);
        }
    }
}

proof fn lemma_vacant_org_layout_equiv(
    ol: OrgLayout,
    orgs1: Seq<Organization>,
    orgs2: Seq<Organization>,
    t: int,
    idx: int,
    c: &Config,
    j: int,
)
    requires
        vacant_role_removed(orgs1, orgs2, t, idx),
        0 <= j < c.org_ordering@.len(),
        entries_fault_prefix(orgs1, c, j) is None,
        entry_fault(orgs1, c, j) is None,
    ensures
        org_layout_matches(ol, orgs1, c, j) <==> org_layout_matches(ol, orgs2, c, j),
{
    lemma_vacant_org_equal(orgs1, orgs2, t, idx, c);
    lemma_vacant_scan_equal(orgs1, orgs2, t, idx, c, j);
    let name = c.org_ordering@[j].name@;
    lemma_find_org_equal(orgs1, orgs2, name, 0);
    lemma_find_org_in_range(orgs1, name, 0);
    let u = find_org(orgs1, name)->0;
    let o1 = orgs1[u];
    let o2 = orgs2[u];
    assert(o2.children@ == o1.children@);
    assert(visible(o2.callings@) == visible(o1.callings@));
    assert(org_y_pos(orgs2, c, j) == org_y_pos(orgs1, c, j));
}

/// A vacant role never produces a box and never consumes a grid slot:
/// removing one from an organization's own role list leaves the layout
/// computation untouched. The faults are the same, and a computed layout is
/// correct for the one tree exactly when it is correct for the other, so
/// every position, size, label, and counter value is unaffected.
pub proof fn lemma_vacant_role_removed_same_layout(
    orgs1: Seq<Organization>,
    orgs2: Seq<Organization>,
    t: int,
    idx: int,
    c: &Config,
)
    requires
        vacant_role_removed(orgs1, orgs2, t, idx),
        layout_fault(orgs1, c) is None,
    ensures
        layout_fault(orgs2, c) == layout_fault(orgs1, c),
        forall|l: Layout| layout_matches(l, orgs1, c) <==> layout_matches(l, orgs2, c),
{
    lemma_vacant_scan_equal(orgs1, orgs2, t, idx, c, c.org_ordering@.len() as int);
    assert forall|l: Layout| layout_matches(l, orgs1, c) <==> layout_matches(l, orgs2, c) by {
        if layout_matches(l, orgs1, c) {
            assert forall|j: int| 0 <= j < c.org_ordering@.len() implies org_layout_matches(
                #[trigger] l.orgs@[j],
                orgs2,
                c,
                j,
            ) by {
                lemma_entry_fault_none_of_prefix(orgs1, c, j, c.org_ordering@.len() as int);
                lemma_vacant_org_layout_equiv(l.orgs@[j], orgs1, orgs2, t, idx, c, j);
            }
        }
        if layout_matches(l, orgs2, c) {
            assert forall|j: int| 0 <= j < c.org_ordering@.len() implies org_layout_matches(
                #[trigger] l.orgs@[j],
                orgs1,
                c,
                j,
            ) by {
                lemma_entry_fault_none_of_prefix(orgs1, c, j, c.org_ordering@.len() as int);
                lemma_vacant_org_layout_equiv(l.orgs@[j], orgs1, orgs2, t, idx, c, j);
            }
        }
    }
}

} // verus!

//! Top-level diagram generation: ties the verified layout computation to
//! the document renderer. The only non-determinism is here: the diagram
//! identifier and the per-box identifier tags are drawn from the outside
//! random-number source, while the geometry stays a pure function of the
//! tree and the configuration.

use vstd::prelude::*;

verus! {

use crate::config::Config;
use crate::data::DataError;
use crate::data::Organization;
use crate::emit::document_chars;
use crate::emit::render_document;
use crate::emit::tag_base;
use crate::emit::tag_count;
use crate::layout::Layout;
use crate::layout::LayoutFault;
use crate::layout::compute_layout;
use crate::layout::date_fault;
use crate::layout::layout_fault;
use crate::layout::layout_matches;
use crate::layout::orgs_bounded;

/// Why a diagram could not be generated.
#[derive(Debug)]
pub enum GenerateError {
    DataError(DataError),
    InvalidLayout(String),
}

/// The display message of a generation error.
pub open spec fn generate_error_chars(e: GenerateError) -> Seq<char> {
    match e {
        GenerateError::DataError(d) => "Data error: "@ + crate::data::data_error_chars(d),
        GenerateError::InvalidLayout(m) => "Invalid layout: "@ + m@,
    }
}

impl GenerateError {
    /// Renders the error for display.
    pub fn to_string(&self) -> (r: String)
        ensures
            r@ == generate_error_chars(*self),
    {
        let mut s = String::new();
        match self {
            GenerateError::DataError(d) => {
                s.append("Data error: ");
                let inner = d.to_string();
                s.append(inner.as_str());
            },
            GenerateError::InvalidLayout(m) => {
                s.append("Invalid layout: ");
                s.append(m.as_str());
            },
        }
        proof {
            assert(s@ =~= generate_error_chars(*self));
        }
        s
    }
}

impl From<DataError> for GenerateError {
    fn from(err: DataError) -> (r: GenerateError) {
        GenerateError::DataError(err)
    }
}

impl vstd::std_specs::convert::FromSpecImpl<DataError> for GenerateError {
    open spec fn obeys_from_spec() -> bool {
        true
    }

    open spec fn from_spec(err: DataError) -> GenerateError {
        GenerateError::DataError(err)
    }
}

/// Relies on `rand::Rng::gen_range` over `rand::thread_rng`: the result is
/// drawn from the given half-open range, so it lies below `u128::MAX`.
#[verifier::external_body]
fn random_diagram_id() -> (r: u128)
    ensures
        r < u128::MAX,
{
    rand::Rng::gen_range(&mut rand::thread_rng(), 0..u128::MAX)
}

/// Relies on `rand::Rng::gen_range` over `rand::thread_rng`: the result is
/// drawn from the given half-open range, a six-digit disambiguating tag.
#[verifier::external_body]
fn rand_tag() -> (r: u32)
    ensures
        100000 <= r < 1000000,
{
    rand::Rng::gen_range(&mut rand::thread_rng(), 100000..1000000)
}

/// Generates the whole diagram document for the tree and configuration:
/// computes the layout, draws a random diagram identifier and one random
/// six-digit tag per organization and sub-organization box, and renders
/// the document. The text is exactly [`document_chars`] of a layout that
/// matches the inputs, for some such identifier and tags; everything but
/// those random draws is determined by the inputs. Fails exactly when the
/// layout computation fails, with the same error.
pub fn diagram_file_contents(orgs: &Vec<Organization>, conf: &Config) -> (r: Result<
    String,
    GenerateError,
>)
    requires
        conf.wf(),
        orgs_bounded(orgs@),
    ensures
        r is Ok <==> layout_fault(orgs@, conf) is None,
        r matches Ok(s) ==> exists|l: Layout, id: u128, tags: Seq<u32>|
            {
                &&& layout_matches(l, orgs@, conf)
                &&& id < u128::MAX
                &&& tags.len() as int == tag_count(l)
                &&& (forall|i: int| 0 <= i < tags.len() ==> 100000 <= #[trigger] tags[i] < 1000000)
                &&& s@ == #[trigger] document_chars(l, id, tags)
            },
        r is Err ==> match layout_fault(orgs@, conf) {
            Some(LayoutFault::NonPositiveCapacity) => r matches Err(
                GenerateError::InvalidLayout(m),
            ) && m@ == "Calling bubbles per row must be positive"@,
            Some(LayoutFault::InfeasibleMargin) => r matches Err(GenerateError::InvalidLayout(m))
                && m@ == "Org bubble width too small"@,
            Some(LayoutFault::UnknownOrg { entry }) => r matches Err(
                GenerateError::InvalidLayout(m),
            ) && m@ == "Unrecognized org name: "@ + conf.org_ordering@[entry].name@,
            Some(LayoutFault::BadDate { date }) => r matches Err(GenerateError::DataError(e)) && e
                == date_fault(date),
            None => false,
        },
{
    let l = match compute_layout(orgs, conf) {
        Ok(l) => l,
        Err(e) => {
            return Err(e);
        },
    };
    let id = random_diagram_id();
    let mut tags: Vec<u32> = Vec::new();
    let mut j: usize = 0;
    while j < l.orgs.len()
        invariant
            j <= l.orgs@.len(),
            tags@.len() as int == tag_base(l, j as int),
            forall|i: int| 0 <= i < tags@.len() ==> 100000 <= #[trigger] tags@[i] < 1000000,
        decreases l.orgs@.len() - j,
    {
        tags.push(rand_tag());
        let mut si: usize = 0;
        while si < l.orgs[j].sub_orgs.len()
            invariant
                j < l.orgs@.len(),
                si <= l.orgs@[j as int].sub_orgs@.len(),
                tags@.len() as int == tag_base(l, j as int) + 1 + si as int,
                forall|i: int| 0 <= i < tags@.len() ==> 100000 <= #[trigger] tags@[i] < 1000000,
            decreases l.orgs@[j as int].sub_orgs@.len() - si,
        {
            tags.push(rand_tag());
            si = si + 1;
        }
        j = j + 1;
    }
    let doc = render_document(&l, id, &tags);
    proof {
        assert(document_chars(l, id, tags@) == doc@);
    }
    Ok(doc)
}

} // verus!

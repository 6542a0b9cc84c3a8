//! The document emitter: renders a computed layout, a diagram identifier,
//! and the identifier tags of the boxes into the diagram-description text.
//! Pure formatting: the exact output text is pinned down, character for
//! character, by [`document_chars`].

use vstd::prelude::*;

verus! {

use crate::config::Config;
use crate::data::Calling;
use crate::data::Organization;
use crate::layout::BubbleBox;
use crate::layout::Layout;
use crate::layout::OrgLayout;
use crate::layout::SubOrgLayout;
use crate::layout::box_matches;
use crate::layout::counter_before;
use crate::layout::flat_visible;
use crate::layout::layout_matches;
use crate::layout::lemma_placed_index_surjective;
use crate::layout::org_layout_matches;
use crate::layout::org_left_margin;
use crate::layout::placed_upto;
use crate::layout::resolved;
use crate::layout::sub_left_margin;
use crate::layout::sub_matches;
use crate::layout::subs_match;
use crate::layout::visible;
use crate::text::dec_str;
use crate::text::push_dec;

/// Opening of the document, up to the diagram identifier.
pub const DOC_HEAD_OPEN: &'static str = r#"<mxfile host="app.diagrams.net" agent="Mozilla/5.0 (Macintosh; Intel Mac OS X 10_15_7) AppleWebKit/605.1.15 (KHTML, like Gecko) Version/18.2 Safari/605.1.15" version="26.0.5">
  <diagram id=""#;

/// Rest of the document prologue, after the diagram identifier.
pub const DOC_HEAD_CLOSE: &'static str = r#"" name="Page-1">
    <mxGraphModel grid="1" page="0" gridSize="10" guides="1" tooltips="1" connect="1" arrows="1" fold="1" pageScale="1" pageWidth="827" pageHeight="1169" math="0" shadow="0">
      <root>
        <mxCell id="0" />
        <mxCell id="1" parent="0" />"#;

/// Closing of the document.
pub const DOC_FOOT: &'static str = r#"      </root>
    </mxGraphModel>
  </diagram>
</mxfile>"#;

/// Opening of an organization element, up to its identifier.
pub const ORG_OPEN: &'static str = r#"        <mxCell id=""#;

/// Between a container element's identifier and its display label.
pub const BOX_TITLE: &'static str = r#"" value="&lt;font style=&quot;font-size: 22px;&quot;&gt;"#;

/// Organization element style and the opening of its geometry.
pub const ORG_STYLE: &'static str = r#"&lt;/font&gt;" style="swimlane;whiteSpace=wrap;html=1;rounded=1;strokeWidth=4;startSize=40;" vertex="1" parent="1">
          <mxGeometry x=""#;

/// Closing of an organization element after its geometry.
pub const ORG_CLOSE: &'static str = r#"" as="geometry" />
        </mxCell>"#;

/// Opening of a sub-organization element, up to its identifier.
pub const SUB_OPEN: &'static str = r#"          <mxCell id=""#;

/// Sub-organization element style, up to its parent identifier.
pub const SUB_STYLE: &'static str = r#"&lt;/font&gt;" style="swimlane;whiteSpace=wrap;html=1;rounded=1;strokeWidth=4;startSize=40;strokeColor=#9E9E9E;fontColor=#6B6B6B;" vertex="1" parent=""#;

/// After a sub-organization's parent identifier: opening of its geometry.
pub const SUB_GEO: &'static str = r#"">
            <mxGeometry x=""#;

/// Closing of a sub-organization or directly placed role element.
pub const TEN_CLOSE: &'static str = r#"" as="geometry" />
          </mxCell>"#;

/// Opening of a directly placed role element, up to its counter value.
pub const CALL_OPEN: &'static str = r#"          <mxCell id="calling-"#;

/// Opening of a role element inside a sub-organization box.
pub const CALL_OPEN_DEEP: &'static str = r#"            <mxCell id="calling-"#;

/// Between a role element's counter value and the role name.
pub const CALL_NAME: &'static str = r#"" value="&lt;div&gt;&lt;b&gt;&lt;font style=&quot;font-size: 18px;&quot;&gt;"#;

/// Between the role name and the holder's name.
pub const CALL_HOLDER: &'static str = r#"&lt;/font&gt;&lt;/b&gt;&lt;/div&gt;&lt;div&gt;&lt;br&gt;&lt;/div&gt;&lt;div&gt;"#;

/// Between the holder's name and the formatted start date.
pub const CALL_SINCE: &'static str = r#"&lt;/div&gt;&lt;div&gt;Since: "#;

/// Role element style, up to its parent identifier.
pub const CALL_STYLE: &'static str = r#"&lt;/div&gt;" style="rounded=1;whiteSpace=wrap;html=1;align=left;spacingLeft=0;spacingTop=0;spacing=10;fontSize=16;" vertex="1" parent=""#;

/// After a directly placed role's parent identifier: its geometry.
pub const CALL_GEO: &'static str = r#"">
            <mxGeometry x=""#;

/// The same for a role inside a sub-organization box.
pub const CALL_GEO_DEEP: &'static str = r#"">
              <mxGeometry x=""#;

/// Closing of a role element inside a sub-organization box.
pub const CALL_CLOSE_DEEP: &'static str = r#"" as="geometry" />
            </mxCell>"#;

/// The `y` attribute separator of a geometry element.
pub const GEO_Y: &'static str = r#"" y=""#;

/// The `width` attribute separator of a geometry element.
pub const GEO_W: &'static str = r#"" width=""#;

/// The `height` attribute separator of a geometry element.
pub const GEO_H: &'static str = r#"" height=""#;

/// A box identifier: its name-derived base, a dash, and its random tag.
pub open spec fn id_with_tag(base: Seq<char>, tag: u32) -> Seq<char> {
    base + "-"@ + dec_str(tag as nat)
}

/// The element text of one role box.
pub open spec fn calling_elem_chars(
    b: BubbleBox,
    parent_id: Seq<char>,
    w: u128,
    h: u128,
    deep: bool,
) -> Seq<char> {
    (if deep {
        CALL_OPEN_DEEP@
    } else {
        CALL_OPEN@
    }) + dec_str(b.num as nat) + CALL_NAME@ + b.name@ + CALL_HOLDER@ + b.last_name@ + ", "@
        + b.given_names@ + CALL_SINCE@ + b.since@ + CALL_STYLE@ + parent_id + (if deep {
        CALL_GEO_DEEP@
    } else {
        CALL_GEO@
    }) + dec_str(b.x as nat) + GEO_Y@ + dec_str(b.y as nat) + GEO_W@ + dec_str(w as nat) + GEO_H@
        + dec_str(h as nat) + (if deep {
        CALL_CLOSE_DEEP@
    } else {
        TEN_CLOSE@
    })
}

/// The concatenated elements of the first `i` role boxes of one container.
pub open spec fn calling_elems_prefix(
    bs: Seq<BubbleBox>,
    i: int,
    parent_id: Seq<char>,
    w: u128,
    h: u128,
    deep: bool,
) -> Seq<char>
    decreases i,
{
    if i <= 0 {
        Seq::empty()
    } else {
        calling_elems_prefix(bs, i - 1, parent_id, w, h, deep) + calling_elem_chars(
            bs[i - 1],
            parent_id,
            w,
            h,
            deep,
        )
    }
}

/// The element text of one organization box.
pub open spec fn org_elem_chars(ol: OrgLayout, org_width: u128, org_id: Seq<char>) -> Seq<char> {
    ORG_OPEN@ + org_id + BOX_TITLE@ + ol.name@ + ORG_STYLE@ + dec_str(ol.x as nat) + GEO_Y@
        + dec_str(ol.y as nat) + GEO_W@ + dec_str(org_width as nat) + GEO_H@ + dec_str(
        ol.height as nat,
    ) + ORG_CLOSE@
}

/// The element text of one sub-organization box.
pub open spec fn sub_elem_chars(
    sl: SubOrgLayout,
    inset: u128,
    sub_w: u128,
    parent_id: Seq<char>,
    sub_id: Seq<char>,
) -> Seq<char> {
    SUB_OPEN@ + sub_id + BOX_TITLE@ + sl.name@ + SUB_STYLE@ + parent_id + SUB_GEO@ + dec_str(
        inset as nat,
    ) + GEO_Y@ + dec_str(sl.y as nat) + GEO_W@ + dec_str(sub_w as nat) + GEO_H@ + dec_str(
        sl.height as nat,
    ) + TEN_CLOSE@
}

/// One sub-organization box followed by all its role boxes.
pub open spec fn sub_block_chars(
    sl: SubOrgLayout,
    inset: u128,
    sub_w: u128,
    box_w: u128,
    box_h: u128,
    parent_id: Seq<char>,
    tag: u32,
) -> Seq<char> {
    sub_elem_chars(sl, inset, sub_w, parent_id, id_with_tag(sl.id_base@, tag))
        + calling_elems_prefix(
        sl.callings@,
        sl.callings@.len() as int,
        id_with_tag(sl.id_base@, tag),
        box_w,
        box_h,
        true,
    )
}

/// The first `i` sub-organization blocks of one organization; block `si`
/// takes the tag at `base + si`.
pub open spec fn subs_chars_prefix(
    subs: Seq<SubOrgLayout>,
    i: int,
    inset: u128,
    sub_w: u128,
    box_w: u128,
    box_h: u128,
    parent_id: Seq<char>,
    tags: Seq<u32>,
    base: int,
) -> Seq<char>
    decreases i,
{
    if i <= 0 {
        Seq::empty()
    } else {
        subs_chars_prefix(subs, i - 1, inset, sub_w, box_w, box_h, parent_id, tags, base)
            + sub_block_chars(subs[i - 1], inset, sub_w, box_w, box_h, parent_id, tags[base + i - 1])
    }
}

/// One organization: its own element, its directly placed role boxes, then
/// its sub-organization blocks. The organization takes the tag at `base`,
/// its sub-organizations the tags that follow.
pub open spec fn org_block_chars(ol: OrgLayout, l: Layout, tags: Seq<u32>, base: int) -> Seq<
    char,
> {
    org_elem_chars(ol, l.org_width, id_with_tag(ol.id_base@, tags[base])) + calling_elems_prefix(
        ol.callings@,
        ol.callings@.len() as int,
        id_with_tag(ol.id_base@, tags[base]),
        l.box_width,
        l.box_height,
        false,
    ) + subs_chars_prefix(
        ol.sub_orgs@,
        ol.sub_orgs@.len() as int,
        l.sub_org_inset,
        l.sub_org_width,
        l.box_width,
        l.box_height,
        id_with_tag(ol.id_base@, tags[base]),
        tags,
        base + 1,
    )
}

/// Index of the first tag that organization `j` consumes: every earlier
/// organization takes one tag for itself and one per sub-organization box.
pub open spec fn tag_base(l: Layout, j: int) -> int
    decreases j,
{
    if j <= 0 {
        0
    } else {
        tag_base(l, j - 1) + 1 + l.orgs@[j - 1].sub_orgs@.len()
    }
}

/// Number of identifier tags a layout consumes when rendered.
pub open spec fn tag_count(l: Layout) -> int {
    tag_base(l, l.orgs@.len() as int)
}

/// The blocks of the first `j` organizations.
pub open spec fn orgs_chars_prefix(l: Layout, tags: Seq<u32>, j: int) -> Seq<char>
    decreases j,
{
    if j <= 0 {
        Seq::empty()
    } else {
        orgs_chars_prefix(l, tags, j - 1) + org_block_chars(l.orgs@[j - 1], l, tags, tag_base(l, j - 1))
    }
}

/// The whole document: prologue with the diagram identifier, one block per
/// organization, and the closing footer.
pub open spec fn document_chars(l: Layout, diagram_id: u128, tags: Seq<u32>) -> Seq<char> {
    DOC_HEAD_OPEN@ + dec_str(diagram_id as nat) + DOC_HEAD_CLOSE@ + orgs_chars_prefix(
        l,
        tags,
        l.orgs@.len() as int,
    ) + DOC_FOOT@
}

proof fn lemma_tag_base_nonneg(l: Layout, j: int)
    requires
        0 <= j,
    ensures
        j <= tag_base(l, j),
    decreases j,
{
    if j > 0 {
        lemma_tag_base_nonneg(l, j - 1);
    }
}

proof fn lemma_tag_base_mono(l: Layout, j: int, j2: int)
    requires
        0 <= j <= j2,
    ensures
        tag_base(l, j) <= tag_base(l, j2),
        0 <= tag_base(l, j),
    decreases j2 - j,
{
    lemma_tag_base_nonneg(l, j);
    if j2 > j {
        lemma_tag_base_mono(l, j, j2 - 1);
    }
}

/// Builds a box identifier from its base and its random tag.
fn make_id(base: &String, tag: u32) -> (r: String)
    ensures
        r@ == id_with_tag(base@, tag),
{
    let mut s = base.clone();
    s.append("-");
    push_dec(&mut s, tag as u128);
    proof {
        assert(s@ =~= id_with_tag(base@, tag));
    }
    s
}

#[verifier::rlimit(60)]
fn push_calling_elem(out: &mut String, b: &BubbleBox, parent_id: &str, w: u128, h: u128, deep: bool)
    ensures
        final(out)@ == old(out)@ + calling_elem_chars(*b, parent_id@, w, h, deep),
{
    if deep {
        out.append(CALL_OPEN_DEEP);
    } else {
        out.append(CALL_OPEN);
    }
    push_dec(out, b.num);
    out.append(CALL_NAME);
    out.append(b.name.as_str());
    out.append(CALL_HOLDER);
    out.append(b.last_name.as_str());
    out.append(", ");
    out.append(b.given_names.as_str());
    out.append(CALL_SINCE);
    out.append(b.since.as_str());
    out.append(CALL_STYLE);
    out.append(parent_id);
    if deep {
        out.append(CALL_GEO_DEEP);
    } else {
        out.append(CALL_GEO);
    }
    push_dec(out, b.x);
    out.append(GEO_Y);
    push_dec(out, b.y);
    out.append(GEO_W);
    push_dec(out, w);
    out.append(GEO_H);
    push_dec(out, h);
    if deep {
        out.append(CALL_CLOSE_DEEP);
    } else {
        out.append(TEN_CLOSE);
    }
    proof {
        assert(out@ =~= old(out)@ + calling_elem_chars(*b, parent_id@, w, h, deep));
    }
}

#[verifier::rlimit(60)]
fn push_org_elem(out: &mut String, ol: &OrgLayout, org_width: u128, org_id: &str)
    ensures
        final(out)@ == old(out)@ + org_elem_chars(*ol, org_width, org_id@),
{
    out.append(ORG_OPEN);
    out.append(org_id);
    out.append(BOX_TITLE);
    out.append(ol.name.as_str());
    out.append(ORG_STYLE);
    push_dec(out, ol.x);
    out.append(GEO_Y);
    push_dec(out, ol.y);
    out.append(GEO_W);
    push_dec(out, org_width);
    out.append(GEO_H);
    push_dec(out, ol.height);
    out.append(ORG_CLOSE);
    proof {
        assert(out@ =~= old(out)@ + org_elem_chars(*ol, org_width, org_id@));
    }
}

#[verifier::rlimit(60)]
fn push_sub_elem(out: &mut String, sl: &SubOrgLayout, inset: u128, sub_w: u128, parent_id: &str, sub_id: &str)
    ensures
        final(out)@ == old(out)@ + sub_elem_chars(*sl, inset, sub_w, parent_id@, sub_id@),
{
    out.append(SUB_OPEN);
    out.append(sub_id);
    out.append(BOX_TITLE);
    out.append(sl.name.as_str());
    out.append(SUB_STYLE);
    out.append(parent_id);
    out.append(SUB_GEO);
    push_dec(out, inset);
    out.append(GEO_Y);
    push_dec(out, sl.y);
    out.append(GEO_W);
    push_dec(out, sub_w);
    out.append(GEO_H);
    push_dec(out, sl.height);
    out.append(TEN_CLOSE);
    proof {
        assert(out@ =~= old(out)@ + sub_elem_chars(*sl, inset, sub_w, parent_id@, sub_id@));
    }
}

#[verifier::rlimit(60)]
fn push_sub_block(
    out: &mut String,
    sl: &SubOrgLayout,
    inset: u128,
    sub_w: u128,
    box_w: u128,
    box_h: u128,
    parent_id: &str,
    tag: u32,
)
    ensures
        final(out)@ == old(out)@ + sub_block_chars(*sl, inset, sub_w, box_w, box_h, parent_id@, tag),
{
    let sub_id = make_id(&sl.id_base, tag);
    push_sub_elem(out, sl, inset, sub_w, parent_id, sub_id.as_str());
    let mut bi: usize = 0;
    while bi < sl.callings.len()
        invariant
            sub_id@ == id_with_tag(sl.id_base@, tag),
            bi <= sl.callings@.len(),
            out@ == old(out)@ + sub_elem_chars(*sl, inset, sub_w, parent_id@, sub_id@)
                + calling_elems_prefix(sl.callings@, bi as int, sub_id@, box_w, box_h, true),
        decreases sl.callings@.len() - bi,
    {
        push_calling_elem(out, &sl.callings[bi], sub_id.as_str(), box_w, box_h, true);
        bi = bi + 1;
        proof {
            assert(out@ =~= old(out)@ + sub_elem_chars(*sl, inset, sub_w, parent_id@, sub_id@)
                + calling_elems_prefix(sl.callings@, bi as int, sub_id@, box_w, box_h, true));
        }
    }
    proof {
        assert(out@ =~= old(out)@ + sub_block_chars(
            *sl,
            inset,
            sub_w,
            box_w,
            box_h,
            parent_id@,
            tag,
        ));
    }
}

/// Renders a computed layout into the diagram-description document, with
/// the given diagram identifier and one identifier tag per organization
/// and sub-organization box, consumed in drawing order. Rendering is pure
/// formatting: the output is exactly [`document_chars`], so equal layouts,
/// identifiers, and tags give byte-identical documents.
#[verifier::rlimit(100)]
pub fn render_document(l: &Layout, diagram_id: u128, tags: &Vec<u32>) -> (r: String)
    requires
        tags@.len() as int == tag_count(*l),
    ensures
        r@ == document_chars(*l, diagram_id, tags@),
{
    let mut out = String::new();
    out.append(DOC_HEAD_OPEN);
    push_dec(&mut out, diagram_id);
    out.append(DOC_HEAD_CLOSE);
    let ghost head = DOC_HEAD_OPEN@ + dec_str(diagram_id as nat) + DOC_HEAD_CLOSE@;
    proof {
        assert(out@ =~= head + orgs_chars_prefix(*l, tags@, 0));
    }
    let tag_total = tags.len();
    let mut ti: usize = 0;
    let mut j: usize = 0;
    while j < l.orgs.len()
        invariant
            tag_total == tags@.len(),
            tags@.len() as int == tag_count(*l),
            head == DOC_HEAD_OPEN@ + dec_str(diagram_id as nat) + DOC_HEAD_CLOSE@,
            j <= l.orgs@.len(),
            ti as int == tag_base(*l, j as int),
            out@ == head + orgs_chars_prefix(*l, tags@, j as int),
        decreases l.orgs@.len() - j,
    {
        let ol = &l.orgs[j];
        proof {
            lemma_tag_base_mono(*l, 0, j as int);
            lemma_tag_base_mono(*l, j as int + 1, l.orgs@.len() as int);
            assert(tag_base(*l, j as int + 1) == ti as int + 1 + ol.sub_orgs@.len());
            assert(ti as int + 1 + ol.sub_orgs@.len() <= tags@.len() as int);
        }
        let org_tag = tags[ti];
        let org_id = make_id(&ol.id_base, org_tag);
        let ghost pre = out@;
        push_org_elem(&mut out, ol, l.org_width, org_id.as_str());
        let ghost org_elem = org_elem_chars(*ol, l.org_width, org_id@);
        let mut bi: usize = 0;
        while bi < ol.callings.len()
            invariant
                org_id@ == id_with_tag(ol.id_base@, tags@[tag_base(*l, j as int)]),
                org_elem == org_elem_chars(*ol, l.org_width, org_id@),
                bi <= ol.callings@.len(),
                out@ == pre + org_elem + calling_elems_prefix(
                    ol.callings@,
                    bi as int,
                    org_id@,
                    l.box_width,
                    l.box_height,
                    false,
                ),
                ti as int == tag_base(*l, j as int),
            decreases ol.callings@.len() - bi,
        {
            push_calling_elem(&mut out, &ol.callings[bi], org_id.as_str(), l.box_width, l.box_height, false);
            bi = bi + 1;
            proof {
                assert(out@ =~= pre + org_elem + calling_elems_prefix(
                    ol.callings@,
                    bi as int,
                    org_id@,
                    l.box_width,
                    l.box_height,
                    false,
                ));
            }
        }
        let ghost calls = calling_elems_prefix(
            ol.callings@,
            ol.callings@.len() as int,
            org_id@,
            l.box_width,
            l.box_height,
            false,
        );
        let mut si: usize = 0;
        while si < ol.sub_orgs.len()
            invariant
                tag_total == tags@.len(),
                tags@.len() as int == tag_count(*l),
                j < l.orgs@.len(),
                ol == &l.orgs@[j as int],
                org_id@ == id_with_tag(ol.id_base@, tags@[tag_base(*l, j as int)]),
                org_elem == org_elem_chars(*ol, l.org_width, org_id@),
                calls == calling_elems_prefix(
                    ol.callings@,
                    ol.callings@.len() as int,
                    org_id@,
                    l.box_width,
                    l.box_height,
                    false,
                ),
                si <= ol.sub_orgs@.len(),
                ti as int == tag_base(*l, j as int),
                ti as int + 1 + ol.sub_orgs@.len() <= tags@.len() as int,
                out@ == pre + org_elem + calls + subs_chars_prefix(
                    ol.sub_orgs@,
                    si as int,
                    l.sub_org_inset,
                    l.sub_org_width,
                    l.box_width,
                    l.box_height,
                    org_id@,
                    tags@,
                    ti as int + 1,
                ),
            decreases ol.sub_orgs@.len() - si,
        {
            proof {
                assert((ti as int) + 1 + (si as int) < tags@.len());
            }
            push_sub_block(
                &mut out,
                &ol.sub_orgs[si],
                l.sub_org_inset,
                l.sub_org_width,
                l.box_width,
                l.box_height,
                org_id.as_str(),
                tags[ti + 1 + si],
            );
            si = si + 1;
            proof {
                assert(out@ =~= pre + org_elem + calls + subs_chars_prefix(
                    ol.sub_orgs@,
                    si as int,
                    l.sub_org_inset,
                    l.sub_org_width,
                    l.box_width,
                    l.box_height,
                    org_id@,
                    tags@,
                    ti as int + 1,
                ));
            }
        }
        ti = ti + 1 + ol.sub_orgs.len();
        j = j + 1;
        proof {
            assert(org_block_chars(l.orgs@[j as int - 1], *l, tags@, tag_base(*l, j as int - 1))
                == org_elem + calling_elems_prefix(
                l.orgs@[j as int - 1].callings@,
                l.orgs@[j as int - 1].callings@.len() as int,
                org_id@,
                l.box_width,
                l.box_height,
                false,
            ) + subs_chars_prefix(
                l.orgs@[j as int - 1].sub_orgs@,
                l.orgs@[j as int - 1].sub_orgs@.len() as int,
                l.sub_org_inset,
                l.sub_org_width,
                l.box_width,
                l.box_height,
                org_id@,
                tags@,
                tag_base(*l, j as int - 1) + 1,
            ));
            assert(out@ =~= head + orgs_chars_prefix(*l, tags@, j as int));
        }
    }
    out.append(DOC_FOOT);
    proof {
        assert(out@ =~= document_chars(*l, diagram_id, tags@));
    }
    out
}

proof fn lemma_calling_prefix_equal(
    bs1: Seq<BubbleBox>,
    bs2: Seq<BubbleBox>,
    vis: Seq<Calling>,
    base: int,
    margin: int,
    c: &Config,
    pid: Seq<char>,
    w: u128,
    h: u128,
    deep: bool,
    i: int,
)
    requires
        bs1.len() == vis.len(),
        bs2.len() == vis.len(),
        0 <= i <= vis.len(),
        forall|t: int|
            0 <= t < vis.len() ==> box_matches(#[trigger] bs1[t], vis[t], base + t, t, margin, c),
        forall|t: int|
            0 <= t < vis.len() ==> box_matches(#[trigger] bs2[t], vis[t], base + t, t, margin, c),
    ensures
        calling_elems_prefix(bs1, i, pid, w, h, deep) == calling_elems_prefix(
            bs2,
            i,
            pid,
            w,
            h,
            deep,
        ),
    decreases i,
{
    if i > 0 {
        lemma_calling_prefix_equal(bs1, bs2, vis, base, margin, c, pid, w, h, deep, i - 1);
        assert(calling_elem_chars(bs1[i - 1], pid, w, h, deep) == calling_elem_chars(
            bs2[i - 1],
            pid,
            w,
            h,
            deep,
        ));
    }
}

proof fn lemma_subs_prefix_equal(
    subs1: Seq<SubOrgLayout>,
    subs2: Seq<SubOrgLayout>,
    children: Seq<Organization>,
    num_base: int,
    c: &Config,
    inset: u128,
    sub_w: u128,
    box_w: u128,
    box_h: u128,
    pid: Seq<char>,
    tags: Seq<u32>,
    tbase: int,
    i: int,
)
    requires
        subs_match(subs1, children, num_base, c),
        subs_match(subs2, children, num_base, c),
        0 <= i <= subs1.len(),
    ensures
        subs_chars_prefix(subs1, i, inset, sub_w, box_w, box_h, pid, tags, tbase)
            == subs_chars_prefix(subs2, i, inset, sub_w, box_w, box_h, pid, tags, tbase),
    decreases i,
{
    if i > 0 {
        lemma_subs_prefix_equal(
            subs1,
            subs2,
            children,
            num_base,
            c,
            inset,
            sub_w,
            box_w,
            box_h,
            pid,
            tags,
            tbase,
            i - 1,
        );
        lemma_placed_index_surjective(children, i - 1, children.len() as int);
        let ci = choose|ci: int|
            0 <= ci < children.len() && flat_visible(#[trigger] children[ci]).len() > 0
                && placed_upto(children, ci) == i - 1;
        assert(sub_matches(
            subs1[i - 1],
            children[ci],
            crate::layout::sub_y_spec(children, ci, c),
            num_base + crate::layout::children_flat_prefix_len(children, ci),
            c,
        ));
        assert(sub_matches(
            subs2[i - 1],
            children[ci],
            crate::layout::sub_y_spec(children, ci, c),
            num_base + crate::layout::children_flat_prefix_len(children, ci),
            c,
        ));
        lemma_calling_prefix_equal(
            subs1[i - 1].callings@,
            subs2[i - 1].callings@,
            flat_visible(children[ci]),
            num_base + crate::layout::children_flat_prefix_len(children, ci),
            sub_left_margin(c),
            c,
            id_with_tag(subs1[i - 1].id_base@, tags[tbase + i - 1]),
            box_w,
            box_h,
            true,
            flat_visible(children[ci]).len() as int,
        );
        assert(sub_block_chars(subs1[i - 1], inset, sub_w, box_w, box_h, pid, tags[tbase + i - 1])
            == sub_block_chars(subs2[i - 1], inset, sub_w, box_w, box_h, pid, tags[tbase + i - 1]));
    }
}

proof fn lemma_tag_base_equal(l1: Layout, l2: Layout, orgs: Seq<Organization>, c: &Config, j: int)
    requires
        layout_matches(l1, orgs, c),
        layout_matches(l2, orgs, c),
        0 <= j <= c.org_ordering@.len(),
    ensures
        tag_base(l1, j) == tag_base(l2, j),
    decreases j,
{
    if j > 0 {
        lemma_tag_base_equal(l1, l2, orgs, c, j - 1);
        assert(org_layout_matches(l1.orgs@[j - 1], orgs, c, j - 1));
        assert(org_layout_matches(l2.orgs@[j - 1], orgs, c, j - 1));
        let o = resolved(orgs, c, j - 1);
        if o.children@.len() == 0 {
            assert(l1.orgs@[j - 1].sub_orgs@.len() == 0);
            assert(l2.orgs@[j - 1].sub_orgs@.len() == 0);
        } else {
            assert(l1.orgs@[j - 1].sub_orgs@.len() == placed_upto(
                o.children@,
                o.children@.len() as int,
            ));
            assert(l2.orgs@[j - 1].sub_orgs@.len() == placed_upto(
                o.children@,
                o.children@.len() as int,
            ));
        }
    }
}

proof fn lemma_orgs_prefix_equal(
    l1: Layout,
    l2: Layout,
    orgs: Seq<Organization>,
    c: &Config,
    tags: Seq<u32>,
    j: int,
)
    requires
        layout_matches(l1, orgs, c),
        layout_matches(l2, orgs, c),
        0 <= j <= c.org_ordering@.len(),
    ensures
        orgs_chars_prefix(l1, tags, j) == orgs_chars_prefix(l2, tags, j),
    decreases j,
{
    if j > 0 {
        lemma_orgs_prefix_equal(l1, l2, orgs, c, tags, j - 1);
        lemma_tag_base_equal(l1, l2, orgs, c, j - 1);
        let jj = j - 1;
        let ol1 = l1.orgs@[jj];
        let ol2 = l2.orgs@[jj];
        assert(org_layout_matches(ol1, orgs, c, jj));
        assert(org_layout_matches(ol2, orgs, c, jj));
        let o = resolved(orgs, c, jj);
        let base = tag_base(l1, jj);
        let org_id = id_with_tag(ol1.id_base@, tags[base]);
        assert(org_elem_chars(ol1, l1.org_width, org_id) == org_elem_chars(
            ol2,
            l2.org_width,
            org_id,
        ));
        if o.children@.len() == 0 {
            lemma_calling_prefix_equal(
                ol1.callings@,
                ol2.callings@,
                visible(o.callings@),
                counter_before(orgs, c, jj),
                org_left_margin(c),
                c,
                org_id,
                l1.box_width,
                l1.box_height,
                false,
                visible(o.callings@).len() as int,
            );
            assert(ol1.sub_orgs@.len() == 0);
            assert(ol2.sub_orgs@.len() == 0);
        } else {
            assert(ol1.callings@.len() == 0);
            assert(ol2.callings@.len() == 0);
            lemma_subs_prefix_equal(
                ol1.sub_orgs@,
                ol2.sub_orgs@,
                o.children@,
                counter_before(orgs, c, jj),
                c,
                l1.sub_org_inset,
                l1.sub_org_width,
                l1.box_width,
                l1.box_height,
                org_id,
                tags,
                base + 1,
                ol1.sub_orgs@.len() as int,
            );
        }
        assert(org_block_chars(ol1, l1, tags, base) == org_block_chars(ol2, l2, tags, base));
    }
}

/// Rendering is deterministic in everything but the injected identifier
/// randomness: two layouts that both match the same tree and configuration,
/// rendered with the same diagram identifier and the same tags, yield
/// byte-identical documents. Re-deriving the geometry from the same inputs
/// therefore reproduces the same positions.
pub proof fn lemma_document_deterministic(
    l1: Layout,
    l2: Layout,
    orgs: Seq<Organization>,
    c: &Config,
    id: u128,
    tags: Seq<u32>,
)
    requires
        layout_matches(l1, orgs, c),
        layout_matches(l2, orgs, c),
    ensures
        document_chars(l1, id, tags) == document_chars(l2, id, tags),
{
    lemma_orgs_prefix_equal(l1, l2, orgs, c, tags, c.org_ordering@.len() as int);
}

} // verus!

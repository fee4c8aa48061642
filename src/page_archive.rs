//! The archive of a page, and the embedding of its resources.

use crate::address::{joined_url, Url};
use crate::html::{
    attribute_of, edited_html, html_elements, tags_view, text_equal, EditModel, ElementTag, ParsedDocument,
    TagModel,
};
use crate::parsing::{data_uri, Resource, ResourceData, ResourceMap};
use vstd::prelude::*;

verus! {

/// Intermediate struct storing the downloaded resources
pub struct PageArchive {
    /// Base URL of the page being archived
    pub url: Url,
    /// The content/body of the page
    pub content: String,
    /// A mapping of resource URLs to the downloaded resources
    pub resource_map: ResourceMap,
}

/// A change to one element of a document, identified by its index in
/// document order.
#[derive(Debug)]
pub enum Edit {
    /// Set the `src` attribute of the element to `value`.
    SetSource { element: usize, value: String },
    /// Replace the element by a `style` element holding `css`, appended
    /// to its parent.
    InlineStyle { element: usize, css: String },
    /// Append `text` as the last child of the element.
    AppendText { element: usize, text: String },
    /// Remove the `src` attribute of the element.
    RemoveSource { element: usize },
}

impl View for Edit {
    type V = EditModel;

    open spec fn view(&self) -> EditModel {
        match self {
            Edit::SetSource { element, value } => EditModel::SetAttribute(*element as int, "src"@, value@),
            Edit::InlineStyle { element, css } => EditModel::ReplaceWithElement(
                *element as int,
                html_namespace(),
                "style"@,
                css@,
            ),
            Edit::AppendText { element, text } => EditModel::AppendText(*element as int, text@),
            Edit::RemoveSource { element } => EditModel::RemoveAttribute(*element as int, "src"@),
        }
    }
}

/// The namespace of HTML elements.
pub open spec fn html_namespace() -> Seq<char> {
    "http://www.w3.org/1999/xhtml"@
}

/// The views of a list of edits.
pub open spec fn edits_view(v: Seq<Edit>) -> Seq<EditModel> {
    v.map_values(|e: Edit| e@)
}

/// The index of the element that an edit changes.
pub open spec fn edit_element(e: EditModel) -> int {
    match e {
        EditModel::SetAttribute(i, _, _) => i,
        EditModel::RemoveAttribute(i, _) => i,
        EditModel::AppendText(i, _) => i,
        EditModel::ReplaceWithElement(i, _, _, _) => i,
    }
}

/// The resource stored in `map` for the reference `reference` of an
/// element, resolved against `base`.
pub open spec fn stored_for(
    base: Seq<char>,
    map: Map<Seq<char>, ResourceData>,
    reference: Option<Seq<char>>,
) -> Option<ResourceData> {
    match reference {
        Some(r) => match joined_url(base, r) {
            Some(u) => if map.contains_key(u) {
                Some(map[u])
            } else {
                None
            },
            None => None,
        },
        None => None,
    }
}

/// The edits that embedding makes to element `i`, whose tag is `tag`:
/// - an `img` whose `src` resolves to a stored image gets that image as a
///   `data:` URI in its `src`;
/// - a `link` with `rel="stylesheet"` whose `href` resolves to a stored
///   stylesheet is replaced by a `style` element holding it;
/// - a `script` with a `src` gets the stored script, where its `src`
///   resolves to one, and loses its `src` in any case.
/// Anything else is left as it is.
pub open spec fn element_edits(
    base: Seq<char>,
    map: Map<Seq<char>, ResourceData>,
    i: int,
    tag: TagModel,
) -> Seq<EditModel> {
    if tag.0 == "img"@ {
        match stored_for(base, map, attribute_of(tag, "src"@)) {
            Some(ResourceData::Image(bytes, mimetype)) => seq![EditModel::SetAttribute(i, "src"@, data_uri(mimetype, bytes))],
            _ => Seq::empty(),
        }
    } else if tag.0 == "link"@ && attribute_of(tag, "rel"@) == Some("stylesheet"@) {
        match stored_for(base, map, attribute_of(tag, "href"@)) {
            Some(ResourceData::Css(css)) => seq![EditModel::ReplaceWithElement(i, html_namespace(), "style"@, css)],
            _ => Seq::empty(),
        }
    } else if tag.0 == "script"@ && attribute_of(tag, "src"@) is Some {
        match stored_for(base, map, attribute_of(tag, "src"@)) {
            Some(ResourceData::Javascript(text)) => seq![EditModel::AppendText(i, text), EditModel::RemoveAttribute(i, "src"@)],
            _ => seq![EditModel::RemoveAttribute(i, "src"@)],
        }
    } else {
        Seq::empty()
    }
}

/// The edits that embedding makes to the first `n` elements of `tags`, in
/// document order.
pub open spec fn embedding_plan(
    base: Seq<char>,
    map: Map<Seq<char>, ResourceData>,
    tags: Seq<TagModel>,
    n: int,
) -> Seq<EditModel>
    decreases n,
{
    if n <= 0 {
        Seq::empty()
    } else {
        embedding_plan(base, map, tags, n - 1) + element_edits(base, map, n - 1, tags[n - 1])
    }
}

/// Every edit of `plan` names one of the first `n` elements.
proof fn lemma_plan_elements(
    base: Seq<char>,
    map: Map<Seq<char>, ResourceData>,
    tags: Seq<TagModel>,
    n: int,
)
    ensures
        forall|j: int|
            0 <= j < embedding_plan(base, map, tags, n).len() ==> 0 <= edit_element(
                #[trigger] embedding_plan(base, map, tags, n)[j],
            ) < n,
    decreases n,
{
    if n > 0 {
        lemma_plan_elements(base, map, tags, n - 1);
        let before = embedding_plan(base, map, tags, n - 1);
        let added = element_edits(base, map, n - 1, tags[n - 1]);
        assert forall|j: int| 0 <= j < (before + added).len() implies 0 <= edit_element(
            #[trigger] (before + added)[j],
        ) < n by {
            if j >= before.len() {
                assert((before + added)[j] == added[j - before.len()]);
            } else {
                assert((before + added)[j] == before[j]);
            }
        }
    }
}

/// Push the edits that embedding makes to element `i`, whose tag is
/// `tag`, onto `edits`.
fn push_element_edits(
    edits: &mut Vec<Edit>,
    base: &Url,
    map: &ResourceMap,
    i: usize,
    tag: &ElementTag,
)
    ensures
        edits_view(final(edits)@) == edits_view(old(edits)@) + element_edits(base@, map@, i as int, tag@),
{
    let ghost start = edits_view(edits@);
    let name = tag.name.as_str();
    if text_equal(name, "img") {
        if let Some(src) = tag.attribute("src") {
            if let Ok(u) = base.join(src.as_str()) {
                if let Some(Resource::Image(image)) = map.get(&u) {
                    edits.push(Edit::SetSource { element: i, value: image.to_data_uri() });
                    assert(edits_view(edits@) =~= start + element_edits(base@, map@, i as int, tag@));
                    return;
                }
            }
        }
        assert(edits_view(edits@) =~= start + element_edits(base@, map@, i as int, tag@));
        return;
    }
    let is_stylesheet = text_equal(name, "link") && match tag.attribute("rel") {
        Some(rel) => text_equal(rel.as_str(), "stylesheet"),
        None => false,
    };
    if is_stylesheet {
        if let Some(href) = tag.attribute("href") {
            if let Ok(u) = base.join(href.as_str()) {
                if let Some(Resource::Css(css)) = map.get(&u) {
                    edits.push(Edit::InlineStyle { element: i, css: css.clone() });
                    assert(edits_view(edits@) =~= start + element_edits(base@, map@, i as int, tag@));
                    return;
                }
            }
        }
        assert(edits_view(edits@) =~= start + element_edits(base@, map@, i as int, tag@));
        return;
    }
    if text_equal(name, "script") {
        if let Some(src) = tag.attribute("src") {
            if let Ok(u) = base.join(src.as_str()) {
                if let Some(Resource::Javascript(text)) = map.get(&u) {
                    edits.push(Edit::AppendText { element: i, text: text.clone() });
                }
            }
            edits.push(Edit::RemoveSource { element: i });
        }
    }
    assert(edits_view(edits@) =~= start + element_edits(base@, map@, i as int, tag@));
}

/// The edits that embedding the resources of `map` makes to the elements
/// `tags` of a document whose URL is `base`, in document order.
pub fn plan_embedding(base: &Url, map: &ResourceMap, tags: &Vec<ElementTag>) -> (r: Vec<Edit>)
    ensures
        edits_view(r@) == embedding_plan(base@, map@, tags_view(tags@), tags@.len() as int),
{
    let mut edits: Vec<Edit> = Vec::new();
    let mut i: usize = 0;
    assert(edits_view(edits@) =~= Seq::empty());
    while i < tags.len()
        invariant
            i <= tags.len(),
            edits_view(edits@) == embedding_plan(base@, map@, tags_view(tags@), i as int),
        decreases tags.len() - i,
    {
        push_element_edits(&mut edits, base, map, i, &tags[i]);
        assert(tags_view(tags@)[i as int] == tags@[i as int]@);
        i = i + 1;
    }
    edits
}

impl PageArchive {
    /// The edits that [`PageArchive::embed_resources`] makes to the
    /// elements of the page, in document order.
    pub fn embedding_edits(&self) -> (r: Vec<Edit>)
        ensures
            edits_view(r@) == embedding_plan(
                self.url@,
                self.resource_map@,
                html_elements(self.content@),
                html_elements(self.content@).len() as int,
            ),
    {
        let document = ParsedDocument::parse(self.content.as_str());
        plan_embedding(&self.url, &self.resource_map, document.tags())
    }

    /// Searches `img`, `link`, and `script` tags in the page body and
    /// substitutes in the downloaded content, then serializes the page.
    ///
    /// * Images are base-64 encoded and inserted as `data:` URIs
    /// * Stylesheets are inserted as inline `<style>` tags, replacing
    ///   the `<link>` tags they originated from
    /// * Scripts are inserted into their originating `<script>` tags
    ///   and their `src` attribute is deleted, embedded or not.
    ///
    /// The changes made are exactly those of [`PageArchive::embedding_edits`].
    pub fn embed_resources(&self) -> (r: String)
        ensures
            r@ == edited_html(
                self.content@,
                embedding_plan(
                    self.url@,
                    self.resource_map@,
                    html_elements(self.content@),
                    html_elements(self.content@).len() as int,
                ),
            ),
    {
        let mut document = ParsedDocument::parse(self.content.as_str());
        let edits = plan_embedding(&self.url, &self.resource_map, document.tags());
        proof {
            lemma_plan_elements(
                self.url@,
                self.resource_map@,
                document.elements(),
                document.elements().len() as int,
            );
            assert forall|j: int| 0 <= j < edits@.len() implies 0 <= edit_element(
                #[trigger] edits@[j]@,
            ) < document.element_count() by {
                assert(edits_view(edits@)[j] == edits@[j]@);
            }
        }
        apply_edits(&mut document, &edits);
        assert(Seq::<EditModel>::empty() + edits_view(edits@) =~= edits_view(edits@));
        document.to_html()
    }
}

/// Apply `edits` to `document`, in their order.
pub fn apply_edits(document: &mut ParsedDocument, edits: &Vec<Edit>)
    requires
        forall|j: int|
            0 <= j < edits@.len() ==> 0 <= edit_element(#[trigger] edits@[j]@) < old(
                document,
            ).element_count(),
    ensures
        final(document).elements() == old(document).elements(),
        final(document).source() == old(document).source(),
        final(document).applied() == old(document).applied() + edits_view(edits@),
{
    let mut j: usize = 0;
    while j < edits.len()
        invariant
            j <= edits.len(),
            document.element_count() == old(document).element_count(),
            document.elements() == old(document).elements(),
            document.source() == old(document).source(),
            document.applied() == old(document).applied() + edits_view(edits@).take(j as int),
            forall|k: int|
                0 <= k < edits@.len() ==> 0 <= edit_element(#[trigger] edits@[k]@) < old(
                    document,
                ).element_count(),
        decreases edits.len() - j,
    {
        let ghost e = edits@[j as int]@;
        assert(0 <= edit_element(e) < document.element_count());
        match &edits[j] {
            Edit::SetSource { element, value } => {
                document.set_attribute(*element, "src", value.clone());
            },
            Edit::InlineStyle { element, css } => {
                document.replace_with_element(
                    *element,
                    "http://www.w3.org/1999/xhtml",
                    "style",
                    css.as_str(),
                );
            },
            Edit::AppendText { element, text } => {
                document.append_text(*element, text.as_str());
            },
            Edit::RemoveSource { element } => {
                document.remove_attribute(*element, "src");
            },
        }
        assert(edits_view(edits@).take(j + 1) =~= edits_view(edits@).take(j as int).push(e));
        j = j + 1;
    }
    assert(edits_view(edits@).take(edits@.len() as int) =~= edits_view(edits@));
}

} // verus!

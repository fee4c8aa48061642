//! The HTML document, as parsed and serialized by `kuchiki`.
//!
//! The tree itself stays opaque. What the library reads of it is the list
//! of its elements in document order, each with its local name and its
//! attributes; changes are made through a handle to each element.

use kuchiki::iter::NodeIterator;
use kuchiki::traits::TendrilSink;
use kuchiki::NodeRef;
use vstd::prelude::*;

verus! {

#[verifier::external_type_specification]
#[verifier::external_body]
pub struct ExNodeRef(NodeRef);

/// An attribute as (namespace, local name, value).
pub type AttributeModel = (Seq<char>, Seq<char>, Seq<char>);

/// An element as (local name, attributes).
pub type TagModel = (Seq<char>, Seq<AttributeModel>);

/// The elements of the document that `kuchiki::parse_html` builds from
/// `html`, in document order.
pub uninterp spec fn html_elements(html: Seq<char>) -> Seq<TagModel>;

/// One attribute of an element.
#[derive(Debug)]
pub struct Attribute {
    /// Namespace URL; empty for an ordinary HTML attribute.
    pub namespace: String,
    /// Local name, lowercase for HTML.
    pub name: String,
    /// Value.
    pub value: String,
}

impl View for Attribute {
    type V = AttributeModel;

    open spec fn view(&self) -> AttributeModel {
        (self.namespace@, self.name@, self.value@)
    }
}

/// The name and attributes of one element.
#[derive(Debug)]
pub struct ElementTag {
    /// Local name, lowercase for HTML.
    pub name: String,
    /// Attributes, each name once.
    pub attributes: Vec<Attribute>,
}

impl View for ElementTag {
    type V = TagModel;

    open spec fn view(&self) -> TagModel {
        (self.name@, self.attributes@.map_values(|a: Attribute| a@))
    }
}

/// The views of a list of element tags.
pub open spec fn tags_view(tags: Seq<ElementTag>) -> Seq<TagModel> {
    tags.map_values(|t: ElementTag| t@)
}

/// The value of the first attribute of `tag`, from index `i` on, in no
/// namespace and named `name`.
pub open spec fn attribute_from(tag: TagModel, name: Seq<char>, i: int) -> Option<Seq<char>>
    decreases tag.1.len() - i,
{
    if i < 0 || i >= tag.1.len() {
        None
    } else if tag.1[i].0.len() == 0 && tag.1[i].1 == name {
        Some(tag.1[i].2)
    } else {
        attribute_from(tag, name, i + 1)
    }
}

/// The value of the attribute `name` (in no namespace) of `tag`.
pub open spec fn attribute_of(tag: TagModel, name: Seq<char>) -> Option<Seq<char>> {
    attribute_from(tag, name, 0)
}

/// Whether two texts are equal.
pub fn text_equal(a: &str, b: &str) -> (r: bool)
    ensures
        r == (a@ == b@),
{
    let n = a.unicode_len();
    let m = b.unicode_len();
    if n != m {
        return false;
    }
    let mut i: usize = 0;
    while i < n
        invariant
            i <= n,
            n == a@.len(),
            m == b@.len(),
            n == m,
            forall|k: int| 0 <= k < i ==> a@[k] == b@[k],
        decreases n - i,
    {
        if a.get_char(i) != b.get_char(i) {
            return false;
        }
        i = i + 1;
    }
    assert(a@ =~= b@);
    true
}

impl ElementTag {
    /// The value of the attribute `name` in no namespace, if the element
    /// has one.
    pub fn attribute(&self, name: &str) -> (r: Option<&String>)
        ensures
            match r {
                Some(v) => attribute_of(self@, name@) == Some(v@),
                None => attribute_of(self@, name@) is None,
            },
    {
        let mut i: usize = 0;
        while i < self.attributes.len()
            invariant
                i <= self.attributes.len(),
                attribute_of(self@, name@) == attribute_from(self@, name@, i as int),
            decreases self.attributes.len() - i,
        {
            let a = &self.attributes[i];
            if a.namespace.as_str().unicode_len() == 0 && text_equal(a.name.as_str(), name) {
                return Some(&a.value);
            }
            i = i + 1;
        }
        None
    }
}

/// A change made to the element with index `i` (in document order, as
/// parsed) of a document.
pub enum EditModel {
    /// Set the attribute (in no namespace) to the value.
    SetAttribute(int, Seq<char>, Seq<char>),
    /// Remove the attribute (in no namespace).
    RemoveAttribute(int, Seq<char>),
    /// Append a text node holding the text as the last child.
    AppendText(int, Seq<char>),
    /// Where the element has a parent: append to that parent a new element
    /// with the namespace and local name, holding the text, and detach the
    /// element. Without a parent nothing changes.
    ReplaceWithElement(int, Seq<char>, Seq<char>, Seq<char>),
}

/// The HTML that kuchiki serializes from the document it parses from
/// `html`, after the changes `edits` were made to it in their order.
pub uninterp spec fn edited_html(html: Seq<char>, edits: Seq<EditModel>) -> Seq<char>;

/// A parsed document: the tree, and its elements in document order, each
/// with a handle and its tag. Its model is the text it was parsed from and
/// the changes made to it since.
pub struct ParsedDocument {
    root: NodeRef,
    /// Handles to the elements, in document order.
    nodes: Vec<NodeRef>,
    /// The tags of the elements, in document order.
    tags: Vec<ElementTag>,
    /// The text the document was parsed from.
    source: Ghost<Seq<char>>,
    /// The changes made to the document, in their order.
    applied: Ghost<Seq<EditModel>>,
}

impl ParsedDocument {
    /// Parse `html` as an HTML document.
    pub fn parse(html: &str) -> (r: ParsedDocument)
        ensures
            r.elements() == html_elements(html@),
            r.element_count() == r.elements().len(),
            r.source() == html@,
            r.applied() == Seq::<EditModel>::empty(),
    {
        let (root, nodes, tags) = parse_with_kuchiki(html);
        let r = ParsedDocument { root, nodes, tags, source: Ghost(html@), applied: Ghost(Seq::empty()) };
        assert(r.elements().len() == r.tags@.len());
        r
    }

    /// The number of element handles.
    pub closed spec fn element_count(&self) -> nat {
        self.nodes@.len()
    }

    /// The tags of the elements, in document order, as parsed. Changes made
    /// through the handles alter the tree, not this list.
    pub closed spec fn elements(&self) -> Seq<TagModel> {
        tags_view(self.tags@)
    }

    /// The text the document was parsed from.
    pub closed spec fn source(&self) -> Seq<char> {
        self.source@
    }

    /// The changes made to the document since it was parsed, in their order.
    pub closed spec fn applied(&self) -> Seq<EditModel> {
        self.applied@
    }

    /// The tags of the elements, in document order, as parsed.
    pub fn tags(&self) -> (r: &Vec<ElementTag>)
        ensures
            tags_view(r@) == self.elements(),
    {
        &self.tags
    }

    /// Relies on `kuchiki::Attributes::insert`: sets the attribute `name`
    /// (in no namespace) of element `i` to `value`.
    #[verifier::external_body]
    pub(crate) fn set_attribute(&mut self, i: usize, name: &str, value: String)
        requires
            i < old(self).element_count(),
        ensures
            final(self).element_count() == old(self).element_count(),
            final(self).elements() == old(self).elements(),
            final(self).source() == old(self).source(),
            final(self).applied() == old(self).applied().push(EditModel::SetAttribute(i as int, name@, value@)),
    {
        if let Some(element) = self.nodes[i].as_element() {
            element.attributes.borrow_mut().insert(name, value);
        }
    }

    /// Relies on `kuchiki::Attributes::remove`: removes the attribute `name`
    /// (in no namespace) from element `i`.
    #[verifier::external_body]
    pub(crate) fn remove_attribute(&mut self, i: usize, name: &str)
        requires
            i < old(self).element_count(),
        ensures
            final(self).element_count() == old(self).element_count(),
            final(self).elements() == old(self).elements(),
            final(self).source() == old(self).source(),
            final(self).applied() == old(self).applied().push(EditModel::RemoveAttribute(i as int, name@)),
    {
        if let Some(element) = self.nodes[i].as_element() {
            element.attributes.borrow_mut().remove(name);
        }
    }

    /// Relies on `kuchiki::NodeRef::new_text` and `NodeRef::append`: a text
    /// node holding `text` becomes the last child of element `i`.
    #[verifier::external_body]
    pub(crate) fn append_text(&mut self, i: usize, text: &str)
        requires
            i < old(self).element_count(),
        ensures
            final(self).element_count() == old(self).element_count(),
            final(self).elements() == old(self).elements(),
            final(self).source() == old(self).source(),
            final(self).applied() == old(self).applied().push(EditModel::AppendText(i as int, text@)),
    {
        self.nodes[i].append(NodeRef::new_text(text))
    }

    /// Relies on `kuchiki::NodeRef::parent`, `new_element`, `new_text`,
    /// `append` and `detach`: where element `i` has a parent, a new element
    /// `name` in `namespace` holding `text` is appended to that parent and
    /// element `i` is detached.
    #[verifier::external_body]
    pub(crate) fn replace_with_element(&mut self, i: usize, namespace: &str, name: &str, text: &str)
        requires
            i < old(self).element_count(),
        ensures
            final(self).element_count() == old(self).element_count(),
            final(self).elements() == old(self).elements(),
            final(self).source() == old(self).source(),
            final(self).applied() == old(self).applied().push(
                EditModel::ReplaceWithElement(i as int, namespace@, name@, text@),
            ),
    {
        let node = &self.nodes[i];
        if let Some(parent) = node.parent() {
            let qual_name = html5ever::QualName::new(None, namespace.into(), name.into());
            let element = NodeRef::new_element(qual_name, None);
            element.append(NodeRef::new_text(text));
            parent.append(element);
            node.detach();
        }
    }

    /// Relies on kuchiki's serializer (`ToString` on `NodeRef`): the HTML of
    /// the document as it now stands.
    #[verifier::external_body]
    pub(crate) fn to_html(&self) -> (r: String)
        ensures
            r@ == edited_html(self.source(), self.applied()),
    {
        self.root.to_string()
    }
}

/// Relies on `kuchiki::parse_html` and the tree it builds: the document,
/// and its elements in document order (as `select` visits them), each as a
/// handle and as its local name and attributes.
#[verifier::external_body]
fn parse_with_kuchiki(html: &str) -> (r: (NodeRef, Vec<NodeRef>, Vec<ElementTag>))
    ensures
        r.1.len() == r.2.len(),
        tags_view(r.2@) == html_elements(html@),
{
    let root = kuchiki::parse_html().one(html);
    let elements: Vec<_> = root.inclusive_descendants().elements().collect();
    let nodes = elements.iter().map(|e| e.as_node().clone()).collect();
    let tags = elements.iter().map(|e| ElementTag {
        name: e.name.local.to_string(),
        attributes: e.attributes.borrow().map.iter().map(|(k, a)| Attribute {
            namespace: k.ns.to_string(),
            name: k.local.to_string(),
            value: a.value.clone(),
        }).collect(),
    }).collect();
    (root, nodes, tags)
}

} // verus!

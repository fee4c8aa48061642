//! Resources: their references, their downloaded contents, and the
//! discovery of the references in a document.

use crate::address::{joined_url, url_path, Url};
use crate::html::{attribute_of, html_elements, tags_view, text_equal, ElementTag, ParsedDocument, TagModel};
use crate::sniff::{mimetype_from_response, sniffed_mimetype};
use vstd::prelude::*;

verus! {

// ---------------------------------------------------------------------
// Order of texts
// ---------------------------------------------------------------------

/// Lexicographic order of texts, character by character. On the ASCII
/// serializations of URLs this is the order of their bytes.
pub open spec fn text_lt(a: Seq<char>, b: Seq<char>) -> bool
    decreases a.len(),
{
    if b.len() == 0 {
        false
    } else if a.len() == 0 {
        true
    } else if a[0] != b[0] {
        a[0] < b[0]
    } else {
        text_lt(a.drop_first(), b.drop_first())
    }
}

/// No text precedes itself.
pub proof fn lemma_text_lt_irreflexive(a: Seq<char>)
    ensures
        !text_lt(a, a),
    decreases a.len(),
{
    if a.len() > 0 {
        lemma_text_lt_irreflexive(a.drop_first());
    }
}

/// The order of texts is transitive.
pub proof fn lemma_text_lt_transitive(a: Seq<char>, b: Seq<char>, c: Seq<char>)
    requires
        text_lt(a, b),
        text_lt(b, c),
    ensures
        text_lt(a, c),
    decreases a.len(),
{
    if a.len() > 0 && b.len() > 0 && c.len() > 0 && a[0] == b[0] && b[0] == c[0] {
        lemma_text_lt_transitive(a.drop_first(), b.drop_first(), c.drop_first());
    }
}

/// Of two different texts, one precedes the other.
pub proof fn lemma_text_lt_total(a: Seq<char>, b: Seq<char>)
    requires
        a != b,
    ensures
        text_lt(a, b) || text_lt(b, a),
    decreases a.len(),
{
    if a.len() == 0 && b.len() == 0 {
        assert(a =~= b);
    }
    if a.len() > 0 && b.len() > 0 && a[0] == b[0] {
        if a.drop_first() == b.drop_first() {
            assert(a.drop_first().len() == b.drop_first().len());
            assert forall|k: int| 0 <= k < a.len() implies a[k] == b[k] by {
                if k > 0 {
                    assert(a[k] == a.drop_first()[k - 1]);
                    assert(b[k] == b.drop_first()[k - 1]);
                }
            }
            assert(a =~= b);
        }
        lemma_text_lt_total(a.drop_first(), b.drop_first());
    }
}

/// Whether `a` precedes `b` in the order of texts.
pub fn text_less(a: &str, b: &str) -> (r: bool)
    ensures
        r == text_lt(a@, b@),
{
    let n = a.unicode_len();
    let m = b.unicode_len();
    let mut i: usize = 0;
    assert(a@.skip(0) =~= a@);
    assert(b@.skip(0) =~= b@);
    while i < n && i < m
        invariant
            i <= n,
            i <= m,
            n == a@.len(),
            m == b@.len(),
            text_lt(a@, b@) == text_lt(a@.skip(i as int), b@.skip(i as int)),
        decreases n - i,
    {
        let x = a.get_char(i);
        let y = b.get_char(i);
        if x != y {
            return x < y;
        }
        assert(a@.skip(i as int).drop_first() =~= a@.skip(i + 1));
        assert(b@.skip(i as int).drop_first() =~= b@.skip(i + 1));
        i = i + 1;
    }
    i < m
}

// ---------------------------------------------------------------------
// Resource references
// ---------------------------------------------------------------------

/// The kind of a resource.
#[derive(Debug, Clone, Copy, PartialEq, Eq, Structural)]
pub enum ResourceKind {
    /// A script.
    Javascript,
    /// A stylesheet.
    Css,
    /// An image.
    Image,
}

/// Where several references name one URL, the kind with the lowest rank is
/// kept: an image before a stylesheet before a script.
pub open spec fn kind_rank(k: ResourceKind) -> int {
    match k {
        ResourceKind::Image => 0,
        ResourceKind::Css => 1,
        ResourceKind::Javascript => 2,
    }
}

/// A resource URL tagged with the kind of resource it refers to. The URL
/// is its identity; the kind says how its content is read. Two values are
/// equal when their URLs are, whatever their kinds.
#[derive(Debug)]
pub enum ResourceUrl {
    /// Javascript files
    Javascript(Url),
    /// CSS files
    Css(Url),
    /// Image files
    Image(Url),
}

impl View for ResourceUrl {
    type V = (ResourceKind, Seq<char>);

    open spec fn view(&self) -> (ResourceKind, Seq<char>) {
        match self {
            ResourceUrl::Javascript(u) => (ResourceKind::Javascript, u@),
            ResourceUrl::Css(u) => (ResourceKind::Css, u@),
            ResourceUrl::Image(u) => (ResourceKind::Image, u@),
        }
    }
}

impl PartialEq for ResourceUrl {
    fn eq(&self, other: &ResourceUrl) -> (r: bool) {
        text_equal(self.url().as_str(), other.url().as_str())
    }
}

impl vstd::std_specs::cmp::PartialEqSpecImpl for ResourceUrl {
    open spec fn obeys_eq_spec() -> bool {
        true
    }

    open spec fn eq_spec(&self, other: &ResourceUrl) -> bool {
        self@.1 == other@.1
    }
}

impl Eq for ResourceUrl {
}

impl ResourceUrl {
    /// Returns a reference to the inner [`Url`]
    pub fn url(&self) -> (r: &Url)
        ensures
            r@ == self@.1,
    {
        match self {
            ResourceUrl::Javascript(u) => u,
            ResourceUrl::Css(u) => u,
            ResourceUrl::Image(u) => u,
        }
    }

    /// The kind of resource referred to.
    pub fn kind(&self) -> (r: ResourceKind)
        ensures
            r == self@.0,
    {
        match self {
            ResourceUrl::Javascript(_) => ResourceKind::Javascript,
            ResourceUrl::Css(_) => ResourceKind::Css,
            ResourceUrl::Image(_) => ResourceKind::Image,
        }
    }

    /// The same URL, tagged with kind `k`.
    fn with_kind(self, k: ResourceKind) -> (r: ResourceUrl)
        ensures
            r@ == (k, self@.1),
    {
        let u = match self {
            ResourceUrl::Javascript(u) => u,
            ResourceUrl::Css(u) => u,
            ResourceUrl::Image(u) => u,
        };
        match k {
            ResourceKind::Javascript => ResourceUrl::Javascript(u),
            ResourceKind::Css => ResourceUrl::Css(u),
            ResourceKind::Image => ResourceUrl::Image(u),
        }
    }
}

// ---------------------------------------------------------------------
// Discovery
// ---------------------------------------------------------------------

/// The reference that an element makes, resolved against `base`, if any:
/// the `src` of an `img` or a `script`, the `href` of a `link` whose `rel`
/// is exactly `stylesheet`. A reference that does not resolve is dropped.
pub open spec fn tag_reference(base: Seq<char>, tag: TagModel) -> Option<(ResourceKind, Seq<char>)> {
    if tag.0 == "img"@ {
        match attribute_of(tag, "src"@) {
            Some(s) => match joined_url(base, s) {
                Some(u) => Some((ResourceKind::Image, u)),
                None => None,
            },
            None => None,
        }
    } else if tag.0 == "link"@ {
        if attribute_of(tag, "rel"@) == Some("stylesheet"@) {
            match attribute_of(tag, "href"@) {
                Some(h) => match joined_url(base, h) {
                    Some(u) => Some((ResourceKind::Css, u)),
                    None => None,
                },
                None => None,
            }
        } else {
            None
        }
    } else if tag.0 == "script"@ {
        match attribute_of(tag, "src"@) {
            Some(s) => match joined_url(base, s) {
                Some(u) => Some((ResourceKind::Javascript, u)),
                None => None,
            },
            None => None,
        }
    } else {
        None
    }
}

/// The references that the elements `tags` make, in their order.
pub open spec fn references(base: Seq<char>, tags: Seq<TagModel>) -> Seq<(ResourceKind, Seq<char>)>
    decreases tags.len(),
{
    if tags.len() == 0 {
        Seq::empty()
    } else {
        let rest = references(base, tags.drop_last());
        match tag_reference(base, tags.last()) {
            Some(x) => rest.push(x),
            None => rest,
        }
    }
}

/// The kind kept for the URL `u` among the references `refs`: `None` where
/// no reference names `u`, else the lowest-ranked kind that names it.
pub open spec fn preferred_kind(refs: Seq<(ResourceKind, Seq<char>)>, u: Seq<char>) -> Option<ResourceKind>
    decreases refs.len(),
{
    if refs.len() == 0 {
        None
    } else {
        let before = preferred_kind(refs.drop_last(), u);
        let x = refs.last();
        if x.1 != u {
            before
        } else {
            match before {
                Some(k) => if kind_rank(x.0) < kind_rank(k) {
                    Some(x.0)
                } else {
                    Some(k)
                },
                None => Some(x.0),
            }
        }
    }
}

/// `r` lists each URL of `refs` once, in increasing order of URL, each with
/// its preferred kind.
pub open spec fn is_discovery_of(
    r: Seq<(ResourceKind, Seq<char>)>,
    refs: Seq<(ResourceKind, Seq<char>)>,
) -> bool {
    &&& forall|i: int, j: int| 0 <= i < j < r.len() ==> text_lt(#[trigger] r[i].1, #[trigger] r[j].1)
    &&& forall|i: int| 0 <= i < r.len() ==> preferred_kind(refs, (#[trigger] r[i]).1) == Some(r[i].0)
    &&& forall|u: Seq<char>|
        #[trigger] preferred_kind(refs, u) is Some ==> exists|i: int| 0 <= i < r.len() && r[i].1 == u
}

/// The views of a list of resource URLs.
pub open spec fn resource_urls_view(v: Seq<ResourceUrl>) -> Seq<(ResourceKind, Seq<char>)> {
    v.map_values(|x: ResourceUrl| x@)
}

/// The reference that the element `tag` makes, resolved against `base`.
pub fn element_reference(base: &Url, tag: &ElementTag) -> (r: Option<ResourceUrl>)
    ensures
        match r {
            Some(x) => tag_reference(base@, tag@) == Some(x@),
            None => tag_reference(base@, tag@) is None,
        },
{
    let name = tag.name.as_str();
    if text_equal(name, "img") {
        match tag.attribute("src") {
            Some(s) => match base.join(s.as_str()) {
                Ok(u) => Some(ResourceUrl::Image(u)),
                Err(_) => None,
            },
            None => None,
        }
    } else if text_equal(name, "link") {
        let is_stylesheet = match tag.attribute("rel") {
            Some(rel) => text_equal(rel.as_str(), "stylesheet"),
            None => false,
        };
        if is_stylesheet {
            match tag.attribute("href") {
                Some(h) => match base.join(h.as_str()) {
                    Ok(u) => Some(ResourceUrl::Css(u)),
                    Err(_) => None,
                },
                None => None,
            }
        } else {
            None
        }
    } else if text_equal(name, "script") {
        match tag.attribute("src") {
            Some(s) => match base.join(s.as_str()) {
                Ok(u) => Some(ResourceUrl::Javascript(u)),
                Err(_) => None,
            },
            None => None,
        }
    } else {
        None
    }
}

/// Add the reference `x` to `result`, the discovery of `refs`, so that it
/// becomes the discovery of `refs` followed by `x`.
fn add_reference(
    result: &mut Vec<ResourceUrl>,
    x: ResourceUrl,
    Ghost(refs): Ghost<Seq<(ResourceKind, Seq<char>)>>,
)
    requires
        is_discovery_of(resource_urls_view(old(result)@), refs),
    ensures
        is_discovery_of(resource_urls_view(final(result)@), refs.push(x@)),
{
    let ghost new_refs = refs.push(x@);
    let ghost u = x@.1;
    assert(new_refs.drop_last() =~= refs);
    assert forall|v: Seq<char>| v != u implies preferred_kind(new_refs, v) == preferred_kind(refs, v) by {}
    let mut p: usize = 0;
    while p < result.len()
        invariant
            p <= result.len(),
            result@ == old(result)@,
            u == x@.1,
            is_discovery_of(resource_urls_view(result@), refs),
            forall|i: int| 0 <= i < p ==> text_lt(#[trigger] result@[i]@.1, u),
        ensures
            p <= result.len(),
            result@ == old(result)@,
            is_discovery_of(resource_urls_view(result@), refs),
            forall|i: int| 0 <= i < p ==> text_lt(#[trigger] result@[i]@.1, u),
            p == result.len() || !text_lt(result@[p as int]@.1, u),
        decreases result.len() - p,
    {
        if !text_less(result[p].url().as_str(), x.url().as_str()) {
            break;
        }
        p = p + 1;
    }
    let ghost before = resource_urls_view(result@);
    if p < result.len() && text_equal(result[p].url().as_str(), x.url().as_str()) {
        let current = result[p].kind();
        if kind_rank_exec(x.kind()) < kind_rank_exec(current) {
            let old_entry = result.remove(p);
            let entry = old_entry.with_kind(x.kind());
            result.insert(p, entry);
        }
        let ghost after = resource_urls_view(result@);
        assert(after =~= before.update(p as int, (preferred_kind(new_refs, u)->0, u)));
        assert forall|i: int, j: int| 0 <= i < j < after.len() implies text_lt(
            #[trigger] after[i].1,
            #[trigger] after[j].1,
        ) by {
            assert(after[i].1 == before[i].1);
            assert(after[j].1 == before[j].1);
        }
        assert forall|i: int| 0 <= i < after.len() implies preferred_kind(new_refs, (#[trigger] after[i]).1)
            == Some(after[i].0) by {
            if i != p {
                assert(after[i] == before[i]);
                assert(before[i].1 != u) by {
                    if i < p {
                        assert(text_lt(before[i].1, before[p as int].1));
                    } else {
                        assert(text_lt(before[p as int].1, before[i].1));
                    }
                    lemma_text_lt_irreflexive(u);
                }
            }
        }
        assert forall|v: Seq<char>| #[trigger] preferred_kind(new_refs, v) is Some implies exists|i: int|
            0 <= i < after.len() && after[i].1 == v by {
            if v == u {
                assert(after[p as int].1 == v);
            } else {
                let i = choose|i: int| 0 <= i < before.len() && before[i].1 == v;
                assert(after[i].1 == v);
            }
        }
    } else {
        proof {
            if p < result.len() {
                lemma_text_lt_total(before[p as int].1, u);
            }
            if preferred_kind(refs, u) is Some {
                let i = choose|i: int| 0 <= i < before.len() && before[i].1 == u;
                if i < p {
                    lemma_text_lt_irreflexive(u);
                } else {
                    if i > p {
                        lemma_text_lt_transitive(u, before[p as int].1, before[i].1);
                    }
                    lemma_text_lt_irreflexive(u);
                }
            }
        }
        result.insert(p, x);
        let ghost after = resource_urls_view(result@);
        assert(after =~= before.insert(p as int, (preferred_kind(new_refs, u)->0, u)));
        assert forall|i: int, j: int| 0 <= i < j < after.len() implies text_lt(
            #[trigger] after[i].1,
            #[trigger] after[j].1,
        ) by {
            if j == p {
            } else if i == p {
                if j > p + 1 {
                    lemma_text_lt_transitive(u, before[p as int].1, before[j - 1].1);
                }
            } else if i < p && j > p {
                assert(after[j].1 == before[j - 1].1);
            } else if i > p {
                assert(after[i].1 == before[i - 1].1);
                assert(after[j].1 == before[j - 1].1);
            }
        }
        assert forall|i: int| 0 <= i < after.len() implies preferred_kind(new_refs, (#[trigger] after[i]).1)
            == Some(after[i].0) by {
            if i < p {
                assert(after[i] == before[i]);
                lemma_text_lt_irreflexive(u);
            } else if i > p {
                assert(after[i] == before[i - 1]);
                if before[i - 1].1 == u {
                    if i - 1 > p {
                        lemma_text_lt_transitive(u, before[p as int].1, before[i - 1].1);
                    }
                    lemma_text_lt_irreflexive(u);
                }
            }
        }
        assert forall|v: Seq<char>| #[trigger] preferred_kind(new_refs, v) is Some implies exists|i: int|
            0 <= i < after.len() && after[i].1 == v by {
            if v == u {
                assert(after[p as int].1 == v);
            } else {
                let i = choose|i: int| 0 <= i < before.len() && before[i].1 == v;
                if i < p {
                    assert(after[i].1 == v);
                } else {
                    assert(after[i + 1].1 == v);
                }
            }
        }
    }
}

fn kind_rank_exec(k: ResourceKind) -> (r: u8)
    ensures
        r as int == kind_rank(k),
{
    match k {
        ResourceKind::Image => 0,
        ResourceKind::Css => 1,
        ResourceKind::Javascript => 2,
    }
}

/// The resources that the elements `tags` refer to, resolved against
/// `base`: each URL once, in increasing order of URL, with the kind of an
/// image before a stylesheet before a script where one URL is referenced
/// in several ways.
pub fn discover_resources(base: &Url, tags: &Vec<ElementTag>) -> (r: Vec<ResourceUrl>)
    ensures
        is_discovery_of(resource_urls_view(r@), references(base@, tags_view(tags@))),
{
    let mut result: Vec<ResourceUrl> = Vec::new();
    let mut i: usize = 0;
    assert(resource_urls_view(result@) =~= Seq::empty());
    while i < tags.len()
        invariant
            i <= tags.len(),
            is_discovery_of(
                resource_urls_view(result@),
                references(base@, tags_view(tags@).take(i as int)),
            ),
        decreases tags.len() - i,
    {
        let ghost prefix = tags_view(tags@).take(i as int);
        let ghost next = tags_view(tags@).take(i + 1);
        assert(next.drop_last() =~= prefix);
        assert(next.last() == tags@[i as int]@);
        match element_reference(base, &tags[i]) {
            Some(x) => {
                add_reference(&mut result, x, Ghost(references(base@, prefix)));
            },
            None => {},
        }
        i = i + 1;
    }
    assert(tags_view(tags@).take(tags.len() as int) =~= tags_view(tags@));
    result
}

/// Search image, style and script resources in the HTML text `page` and
/// resolve their URLs against `url_base` (see [`discover_resources`]).
pub fn parse_resource_urls(url_base: &Url, page: &str) -> (r: Vec<ResourceUrl>)
    ensures
        is_discovery_of(resource_urls_view(r@), references(url_base@, html_elements(page@))),
{
    let document = ParsedDocument::parse(page);
    discover_resources(url_base, document.tags())
}

// ---------------------------------------------------------------------
// Downloaded resources
// ---------------------------------------------------------------------

/// The contents of a downloaded resource.
pub enum ResourceData {
    /// A script's text.
    Javascript(Seq<char>),
    /// A stylesheet's text.
    Css(Seq<char>),
    /// An image's bytes and mimetype.
    Image(Seq<u8>, Seq<char>),
}

/// Generic resource type
#[derive(Debug, PartialEq, Eq)]
pub enum Resource {
    /// Javascript is stored as a String
    Javascript(String),
    /// Stylesheets are stored as a String
    Css(String),
    /// Images are stored as an [`ImageResource`] to allow the mimetype
    /// metadata to be useful
    Image(ImageResource),
}

impl View for Resource {
    type V = ResourceData;

    open spec fn view(&self) -> ResourceData {
        match self {
            Resource::Javascript(t) => ResourceData::Javascript(t@),
            Resource::Css(t) => ResourceData::Css(t@),
            Resource::Image(i) => ResourceData::Image(i.data@, i.mimetype@),
        }
    }
}

/// Data type representing an image
#[derive(Debug, PartialEq, Eq)]
pub struct ImageResource {
    /// Raw image data
    pub data: Vec<u8>,
    /// Mime type of the image, e.g. `image/png`; empty where it is unknown
    pub mimetype: String,
}

/// The standard, padded base64 encoding of `data`, as `base64::encode`
/// gives it.
pub uninterp spec fn base64_of(data: Seq<u8>) -> Seq<char>;

/// Relies on `base64::encode`: the standard base64 encoding, with padding.
#[verifier::external_body]
fn encode_base64(data: &[u8]) -> (r: String)
    ensures
        r@ == base64_of(data@),
{
    base64::encode(data)
}

/// The `data:` URI that embeds `data` with the mimetype `mimetype`.
pub open spec fn data_uri(mimetype: Seq<char>, data: Seq<u8>) -> Seq<char> {
    "data:"@ + mimetype + ";base64,"@ + base64_of(data)
}

impl ImageResource {
    /// Encode the image data as base 64 and embed it into a `data:` URI,
    /// e.g. `data:image/png;base64,iVBORw0...`. An empty mimetype gives
    /// `data:;base64,...`.
    pub fn to_data_uri(&self) -> (r: String)
        ensures
            r@ == data_uri(self.mimetype@, self.data@),
    {
        let encoded = encode_base64(self.data.as_slice());
        let mut r = String::from_str("data:");
        r.append(self.mimetype.as_str());
        r.append(";base64,");
        r.append(encoded.as_str());
        r
    }
}

/// A mapping from absolute resource URLs to the downloaded resources, each
/// URL at most once.
///
/// The entries are kept in a `Vec` with distinct URLs rather than in a
/// `HashMap` keyed by URL: Verus can prove nothing about a hash map whose keys
/// are texts, so the map view and the contracts below could not be stated
/// and proved over one. Lookups compare serializations, which is how `Url`
/// values are equal.
pub struct ResourceMap {
    entries: Vec<(Url, Resource)>,
}

impl ResourceMap {
    /// The URLs of the entries, in the order they are stored.
    closed spec fn keys(&self) -> Seq<Seq<char>> {
        self.entries@.map_values(|e: (Url, Resource)| e.0@)
    }

    #[verifier::type_invariant]
    closed spec fn inv(&self) -> bool {
        self.keys().no_duplicates()
    }

    /// The index of the entry for `k`.
    closed spec fn index_of(&self, k: Seq<char>) -> int {
        choose|i: int| 0 <= i < self.entries@.len() && self.entries@[i].0@ == k
    }
}

impl View for ResourceMap {
    type V = Map<Seq<char>, ResourceData>;

    closed spec fn view(&self) -> Map<Seq<char>, ResourceData> {
        Map::new(|k: Seq<char>| self.keys().contains(k), |k: Seq<char>| self.entries@[self.index_of(k)].1@)
    }
}

impl ResourceMap {
    /// An empty map.
    pub fn new() -> (r: ResourceMap)
        ensures
            r@ == Map::<Seq<char>, ResourceData>::empty(),
    {
        let r = ResourceMap { entries: Vec::new() };
        assert(r@ =~= Map::<Seq<char>, ResourceData>::empty());
        r
    }

    fn find(&self, url: &Url) -> (r: Option<usize>)
        ensures
            match r {
                Some(i) => i < self.entries@.len() && self.entries@[i as int].0@ == url@,
                None => !self.keys().contains(url@),
            },
    {
        let mut i: usize = 0;
        while i < self.entries.len()
            invariant
                i <= self.entries.len(),
                forall|j: int| 0 <= j < i ==> self.entries@[j].0@ != url@,
            decreases self.entries.len() - i,
        {
            if text_equal(self.entries[i].0.as_str(), url.as_str()) {
                return Some(i);
            }
            i = i + 1;
        }
        assert forall|j: int| 0 <= j < self.keys().len() implies self.keys()[j] != url@ by {
            assert(self.keys()[j] == self.entries@[j].0@);
        }
        None
    }

    /// The resource stored for `url`, if any.
    pub fn get(&self, url: &Url) -> (r: Option<&Resource>)
        ensures
            match r {
                Some(x) => self@.contains_key(url@) && self@[url@] == x@,
                None => !self@.contains_key(url@),
            },
    {
        proof {
            use_type_invariant(self);
        }
        match self.find(url) {
            Some(i) => {
                proof {
                    assert(self.keys()[i as int] == url@);
                    let j = self.index_of(url@);
                    assert(self.keys()[j] == url@);
                }
                Some(&self.entries[i].1)
            },
            None => None,
        }
    }

    /// Store `resource` for `url`, in place of what was stored for it.
    pub fn insert(&mut self, url: Url, resource: Resource)
        ensures
            final(self)@ == old(self)@.insert(url@, resource@),
    {
        let ghost before = self@;
        let ghost k = url@;
        let ghost v = resource@;
        let mut taken = ResourceMap { entries: Vec::new() };
        assert(taken.keys() =~= Seq::<Seq<char>>::empty());
        std::mem::swap(self, &mut taken);
        proof {
            use_type_invariant(&taken);
        }
        let ghost old_keys = taken.keys();
        let ghost old_entries = taken.entries@;
        let found = taken.find(&url);
        let mut entries = taken.entries;
        match found {
            Some(i) => {
                entries.set(i, (url, resource));
                let ghost m = ResourceMap { entries };
                proof {
                    assert(m.keys() =~= old_keys.update(i as int, k));
                    assert(old_keys[i as int] == k);
                    assert(m.keys() =~= old_keys);
                    assert forall|k2: Seq<char>| #[trigger] m.keys().contains(k2) && k2 != k implies m.entries@[m.index_of(k2)].1@ == before[k2] by {
                        let a = m.index_of(k2);
                        let b = taken.index_of(k2);
                        assert(old_keys[b] == k2);
                        assert(m.keys()[a] == k2);
                        assert(a != i);
                    }
                    assert(m.entries@[m.index_of(k)].1@ == v) by {
                        let a = m.index_of(k);
                        assert(m.keys()[a] == k);
                        assert(m.keys()[i as int] == k);
                    }
                    assert(m@ =~= before.insert(k, v));
                }
            },
            None => {
                entries.push((url, resource));
                let ghost m = ResourceMap { entries };
                proof {
                    assert(m.keys() =~= old_keys.push(k));
                    assert forall|k2: Seq<char>| #[trigger] m.keys().contains(k2) && k2 != k implies m.entries@[m.index_of(k2)].1@ == before[k2] by {
                        let a = m.index_of(k2);
                        let b = taken.index_of(k2);
                        assert(old_keys[b] == k2);
                        assert(m.keys()[b] == k2);
                        assert(m.keys()[a] == k2);
                    }
                    assert(m.entries@[m.index_of(k)].1@ == v) by {
                        assert(m.keys()[old_keys.len() as int] == k);
                        assert(m.entries@[old_keys.len() as int].0@ == k);
                        let a = m.index_of(k);
                        assert(m.keys()[a] == k);
                    }
                    assert forall|k2: Seq<char>| m.keys().contains(k2) <==> (old_keys.contains(k2) || k2 == k) by {
                        if old_keys.contains(k2) {
                            let b = choose|b: int| 0 <= b < old_keys.len() && old_keys[b] == k2;
                            assert(m.keys()[b] == k2);
                        }
                        if k2 == k {
                            assert(m.keys()[old_keys.len() as int] == k);
                        }
                    }
                    assert(m@ =~= before.insert(k, v));
                }
            },
        }
        *self = ResourceMap { entries };
    }

    /// The number of resources stored.
    pub fn len(&self) -> (r: usize)
        ensures
            r == self@.dom().len(),
    {
        proof {
            use_type_invariant(self);
            self.keys().unique_seq_to_set();
            assert(self@.dom() =~= self.keys().to_set());
        }
        self.entries.len()
    }

    /// The stored URLs with their resources, each URL once, in no
    /// particular order.
    pub fn entries(&self) -> (r: &Vec<(Url, Resource)>)
        ensures
            r@.len() == self@.dom().len(),
            forall|i: int|
                0 <= i < r@.len() ==> self@.contains_key((#[trigger] r@[i]).0@) && self@[r@[i].0@]
                    == r@[i].1@,
            forall|i: int, j: int| 0 <= i < j < r@.len() ==> (#[trigger] r@[i]).0@ != (#[trigger] r@[j]).0@,
            forall|k: Seq<char>| #[trigger] self@.contains_key(k) ==> exists|i: int| 0 <= i < r@.len() && r@[i].0@ == k,
    {
        proof {
            use_type_invariant(self);
            self.keys().unique_seq_to_set();
            assert(self@.dom() =~= self.keys().to_set());
            assert forall|i: int| 0 <= i < self.entries@.len() implies self@.contains_key(
                (#[trigger] self.entries@[i]).0@,
            ) && self@[self.entries@[i].0@] == self.entries@[i].1@ by {
                let k = self.entries@[i].0@;
                assert(self.keys()[i] == k);
                let a = self.index_of(k);
                assert(self.keys()[a] == k);
            }
            assert forall|i: int, j: int| 0 <= i < j < self.entries@.len() implies (
            #[trigger] self.entries@[i]).0@ != (#[trigger] self.entries@[j]).0@ by {
                assert(self.keys()[i] == self.entries@[i].0@);
                assert(self.keys()[j] == self.entries@[j].0@);
            }
            assert forall|k: Seq<char>| #[trigger] self@.contains_key(k) implies exists|i: int|
                0 <= i < self.entries@.len() && self.entries@[i].0@ == k by {
                let i = choose|i: int| 0 <= i < self.keys().len() && self.keys()[i] == k;
                assert(self.entries@[i].0@ == k);
            }
        }
        &self.entries
    }

    /// Whether no resource is stored.
    pub fn is_empty(&self) -> (r: bool)
        ensures
            r == (self@.dom().len() == 0),
    {
        self.len() == 0
    }
}

// ---------------------------------------------------------------------
// Recording fetched resources
// ---------------------------------------------------------------------

/// The body of a response to a resource request.
pub enum ResponseBody {
    /// The raw bytes, read for an image.
    Bytes(Vec<u8>),
    /// The decoded text, read for a stylesheet or a script.
    Text(String),
}

/// A status code of the 2xx class.
pub open spec fn is_success_status(status: u16) -> bool {
    200 <= status < 300
}

/// Whether a response with this status is kept.
pub fn is_success(status: u16) -> (r: bool)
    ensures
        r == is_success_status(status),
{
    200 <= status && status < 300
}

impl ResourceUrl {
    /// Whether the body of this resource is read as raw bytes (an image)
    /// rather than as text.
    pub fn reads_bytes(&self) -> (r: bool)
        ensures
            r == (self@.0 == ResourceKind::Image),
    {
        match self {
            ResourceUrl::Image(_) => true,
            _ => false,
        }
    }
}

/// What the resource map holds after recording a response with `status`
/// and `body` for a reference of kind `kind` to the URL `u` whose path is
/// `path`: the successful response is stored, an image with its sniffed
/// mimetype; a failed one is skipped, as is a body that was not read as
/// the kind asks.
pub open spec fn recorded(
    map: Map<Seq<char>, ResourceData>,
    kind: ResourceKind,
    u: Seq<char>,
    path: Seq<char>,
    status: u16,
    body: ResponseBody,
) -> Map<Seq<char>, ResourceData> {
    if !is_success_status(status) {
        map
    } else {
        match (kind, body) {
            (ResourceKind::Image, ResponseBody::Bytes(d)) => map.insert(
                u,
                ResourceData::Image(d@, sniffed_mimetype(d@, path)),
            ),
            (ResourceKind::Css, ResponseBody::Text(t)) => map.insert(u, ResourceData::Css(t@)),
            (ResourceKind::Javascript, ResponseBody::Text(t)) => map.insert(
                u,
                ResourceData::Javascript(t@),
            ),
            _ => map,
        }
    }
}

impl ResourceMap {
    /// Record the response to the request for `resource_url`: a response
    /// without a 2xx status is skipped; otherwise an image is stored with
    /// the mimetype sniffed from its bytes, and a stylesheet or script with
    /// its text.
    pub fn record_response(&mut self, resource_url: ResourceUrl, status: u16, body: ResponseBody)
        ensures
            final(self)@ == recorded(
                old(self)@,
                resource_url@.0,
                resource_url@.1,
                url_path(resource_url@.1),
                status,
                body,
            ),
    {
        if !is_success(status) {
            return;
        }
        match (resource_url, body) {
            (ResourceUrl::Image(u), ResponseBody::Bytes(data)) => {
                let mimetype = mimetype_from_response(data.as_slice(), &u);
                self.insert(u, Resource::Image(ImageResource { data, mimetype }));
            },
            (ResourceUrl::Css(u), ResponseBody::Text(text)) => {
                self.insert(u, Resource::Css(text));
            },
            (ResourceUrl::Javascript(u), ResponseBody::Text(text)) => {
                self.insert(u, Resource::Javascript(text));
            },
            _ => {},
        }
    }
}

} // verus!

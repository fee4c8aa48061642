//! General properties of resource discovery.

use crate::address::joined_url;
use crate::html::{attribute_of, TagModel};
use crate::html::EditModel;
use crate::page_archive::element_edits;
use crate::parsing::{data_uri, is_success_status, recorded, ResourceData, ResponseBody};
use crate::sniff::{magic_table, signature_matches, sniffed_mimetype, first_signature_from};
use crate::parsing::{
    is_discovery_of, kind_rank, lemma_text_lt_irreflexive, lemma_text_lt_transitive, preferred_kind,
    references, tag_reference, text_lt, ResourceKind,
};
use vstd::prelude::*;

verus! {

/// The kind kept for `u`, read off which references `refs` contains.
spec fn preferred_by_contents(refs: Seq<(ResourceKind, Seq<char>)>, u: Seq<char>) -> Option<ResourceKind> {
    if refs.contains((ResourceKind::Image, u)) {
        Some(ResourceKind::Image)
    } else if refs.contains((ResourceKind::Css, u)) {
        Some(ResourceKind::Css)
    } else if refs.contains((ResourceKind::Javascript, u)) {
        Some(ResourceKind::Javascript)
    } else {
        None
    }
}

proof fn lemma_preferred_by_contents(refs: Seq<(ResourceKind, Seq<char>)>, u: Seq<char>)
    ensures
        preferred_kind(refs, u) == preferred_by_contents(refs, u),
    decreases refs.len(),
{
    if refs.len() > 0 {
        let rest = refs.drop_last();
        lemma_preferred_by_contents(rest, u);
        assert(refs =~= rest.push(refs.last()));
        assert forall|y: (ResourceKind, Seq<char>)| refs.contains(y) <==> (rest.contains(y) || y == refs.last()) by {
            if rest.contains(y) {
                let j = choose|j: int| 0 <= j < rest.len() && rest[j] == y;
                assert(refs[j] == y);
            }
            if y == refs.last() {
                assert(refs[refs.len() - 1] == y);
            }
            if refs.contains(y) && y != refs.last() {
                let j = choose|j: int| 0 <= j < refs.len() && refs[j] == y;
                assert(rest[j] == y);
            }
        }
    } else {
        assert(!refs.contains((ResourceKind::Image, u)));
        assert(!refs.contains((ResourceKind::Css, u)));
        assert(!refs.contains((ResourceKind::Javascript, u)));
    }
}

proof fn lemma_references_contents(base: Seq<char>, tags: Seq<TagModel>, x: (ResourceKind, Seq<char>))
    ensures
        references(base, tags).contains(x) <==> exists|j: int|
            0 <= j < tags.len() && tag_reference(base, #[trigger] tags[j]) == Some(x),
    decreases tags.len(),
{
    if tags.len() > 0 {
        let rest = tags.drop_last();
        lemma_references_contents(base, rest, x);
        let before = references(base, rest);
        let all = references(base, tags);
        if all.contains(x) {
            let i = choose|i: int| 0 <= i < all.len() && all[i] == x;
            if i < before.len() {
                assert(before[i] == x);
                let j = choose|j: int| 0 <= j < rest.len() && tag_reference(base, #[trigger] rest[j]) == Some(x);
                assert(tags[j] == rest[j]);
            } else {
                assert(tags[tags.len() - 1] == tags.last());
            }
        }
        if exists|j: int| 0 <= j < tags.len() && tag_reference(base, #[trigger] tags[j]) == Some(x) {
            let j = choose|j: int| 0 <= j < tags.len() && tag_reference(base, #[trigger] tags[j]) == Some(x);
            if j < rest.len() {
                assert(rest[j] == tags[j]);
                let i = choose|i: int| 0 <= i < before.len() && before[i] == x;
                assert(all[i] == x);
            } else {
                assert(all[all.len() - 1] == x);
            }
        }
    }
}

proof fn lemma_sorted_unique(a: Seq<Seq<char>>, b: Seq<Seq<char>>)
    requires
        forall|i: int, j: int| 0 <= i < j < a.len() ==> text_lt(#[trigger] a[i], #[trigger] a[j]),
        forall|i: int, j: int| 0 <= i < j < b.len() ==> text_lt(#[trigger] b[i], #[trigger] b[j]),
        forall|x: Seq<char>| a.contains(x) <==> b.contains(x),
    ensures
        a == b,
    decreases a.len(),
{
    if a.len() == 0 {
        if b.len() > 0 {
            assert(b.contains(b[0]));
        }
        assert(a =~= b);
    } else {
        assert(a.contains(a[0]));
        let j = choose|j: int| 0 <= j < b.len() && b[j] == a[0];
        assert(b.contains(b[0]));
        let i = choose|i: int| 0 <= i < a.len() && a[i] == b[0];
        if j > 0 {
            assert(text_lt(b[0], b[j]));
            if i > 0 {
                assert(text_lt(a[0], a[i]));
                lemma_text_lt_transitive(a[0], b[0], a[0]);
            }
            lemma_text_lt_irreflexive(a[0]);
        }
        assert(a[0] == b[0]);
        let a1 = a.drop_first();
        let b1 = b.drop_first();
        assert forall|x: Seq<char>| a1.contains(x) <==> b1.contains(x) by {
            if a1.contains(x) {
                let k = choose|k: int| 0 <= k < a1.len() && a1[k] == x;
                assert(a[k + 1] == x);
                assert(text_lt(a[0], a[k + 1]));
                lemma_text_lt_irreflexive(x);
                assert(a.contains(x));
                let m = choose|m: int| 0 <= m < b.len() && b[m] == x;
                assert(m != 0);
                assert(b1[m - 1] == x);
            }
            if b1.contains(x) {
                let k = choose|k: int| 0 <= k < b1.len() && b1[k] == x;
                assert(b[k + 1] == x);
                assert(text_lt(b[0], b[k + 1]));
                lemma_text_lt_irreflexive(x);
                assert(b.contains(x));
                let m = choose|m: int| 0 <= m < a.len() && a[m] == x;
                assert(m != 0);
                assert(a1[m - 1] == x);
            }
        }
        assert forall|i: int, j: int| 0 <= i < j < a1.len() implies text_lt(#[trigger] a1[i], #[trigger] a1[j]) by {
            assert(text_lt(a[i + 1], a[j + 1]));
        }
        assert forall|i: int, j: int| 0 <= i < j < b1.len() implies text_lt(#[trigger] b1[i], #[trigger] b1[j]) by {
            assert(text_lt(b[i + 1], b[j + 1]));
        }
        lemma_sorted_unique(a1, b1);
        assert(a.len() == b.len());
        assert forall|k: int| 0 <= k < a.len() implies a[k] == b[k] by {
            if k > 0 {
                assert(a[k] == a1[k - 1]);
                assert(b[k] == b1[k - 1]);
            }
        }
        assert(a =~= b);
    }
}

/// Discovery lists a URL exactly once, however many elements of the
/// document refer to it and in whichever ways.
pub proof fn lemma_discovery_lists_each_url_once(
    base: Seq<char>,
    tags: Seq<TagModel>,
    r: Seq<(ResourceKind, Seq<char>)>,
    u: Seq<char>,
)
    requires
        is_discovery_of(r, references(base, tags)),
        exists|j: int| 0 <= j < tags.len() && (#[trigger] tag_reference(base, tags[j]) matches Some(x) && x.1 == u),
    ensures
        exists|i: int| 0 <= i < r.len() && r[i].1 == u,
        forall|i: int, j: int| 0 <= i < r.len() && 0 <= j < r.len() && r[i].1 == u && r[j].1 == u ==> i == j,
{
    let refs = references(base, tags);
    let j = choose|j: int| 0 <= j < tags.len() && (#[trigger] tag_reference(base, tags[j]) matches Some(x) && x.1 == u);
    let x = tag_reference(base, tags[j])->0;
    lemma_references_contents(base, tags, x);
    lemma_preferred_by_contents(refs, u);
    assert(refs.contains(x));
    assert(preferred_kind(refs, u) is Some);
    assert forall|i: int, k: int| 0 <= i < r.len() && 0 <= k < r.len() && r[i].1 == u && r[k].1 == u implies i == k by {
        if i < k {
            assert(text_lt(r[i].1, r[k].1));
            lemma_text_lt_irreflexive(u);
        } else if k < i {
            assert(text_lt(r[k].1, r[i].1));
            lemma_text_lt_irreflexive(u);
        }
    }
}

/// Discovery does not depend on the order of the elements: documents whose
/// elements are the same, in any order, give the same list.
pub proof fn lemma_discovery_order_independent(
    base: Seq<char>,
    tags1: Seq<TagModel>,
    tags2: Seq<TagModel>,
    r1: Seq<(ResourceKind, Seq<char>)>,
    r2: Seq<(ResourceKind, Seq<char>)>,
)
    requires
        tags1.to_multiset() == tags2.to_multiset(),
        is_discovery_of(r1, references(base, tags1)),
        is_discovery_of(r2, references(base, tags2)),
    ensures
        r1 == r2,
{
    broadcast use vstd::seq_lib::group_to_multiset_ensures;

    let refs1 = references(base, tags1);
    let refs2 = references(base, tags2);
    assert forall|x: (ResourceKind, Seq<char>)| refs1.contains(x) <==> refs2.contains(x) by {
        lemma_references_contents(base, tags1, x);
        lemma_references_contents(base, tags2, x);
        if refs1.contains(x) {
            let j = choose|j: int| 0 <= j < tags1.len() && tag_reference(base, #[trigger] tags1[j]) == Some(x);
            assert(tags1.contains(tags1[j]));
            assert(tags1.to_multiset().count(tags1[j]) > 0);
            assert(tags2.to_multiset().count(tags1[j]) > 0);
            assert(tags2.contains(tags1[j]));
            let k = choose|k: int| 0 <= k < tags2.len() && tags2[k] == tags1[j];
            assert(tag_reference(base, tags2[k]) == Some(x));
        }
        if refs2.contains(x) {
            let j = choose|j: int| 0 <= j < tags2.len() && tag_reference(base, #[trigger] tags2[j]) == Some(x);
            assert(tags2.contains(tags2[j]));
            assert(tags2.to_multiset().count(tags2[j]) > 0);
            assert(tags1.to_multiset().count(tags2[j]) > 0);
            assert(tags1.contains(tags2[j]));
            let k = choose|k: int| 0 <= k < tags1.len() && tags1[k] == tags2[j];
            assert(tag_reference(base, tags1[k]) == Some(x));
        }
    }
    assert forall|u: Seq<char>| preferred_kind(refs1, u) == preferred_kind(refs2, u) by {
        lemma_preferred_by_contents(refs1, u);
        lemma_preferred_by_contents(refs2, u);
    }
    let a = r1.map_values(|p: (ResourceKind, Seq<char>)| p.1);
    let b = r2.map_values(|p: (ResourceKind, Seq<char>)| p.1);
    assert forall|i: int, j: int| 0 <= i < j < a.len() implies text_lt(#[trigger] a[i], #[trigger] a[j]) by {
        assert(text_lt(r1[i].1, r1[j].1));
    }
    assert forall|i: int, j: int| 0 <= i < j < b.len() implies text_lt(#[trigger] b[i], #[trigger] b[j]) by {
        assert(text_lt(r2[i].1, r2[j].1));
    }
    assert forall|u: Seq<char>| a.contains(u) <==> b.contains(u) by {
        if a.contains(u) {
            let i = choose|i: int| 0 <= i < a.len() && a[i] == u;
            assert(preferred_kind(refs1, r1[i].1) == Some(r1[i].0));
            assert(preferred_kind(refs2, u) is Some);
            let k = choose|k: int| 0 <= k < r2.len() && r2[k].1 == u;
            assert(b[k] == u);
        }
        if b.contains(u) {
            let i = choose|i: int| 0 <= i < b.len() && b[i] == u;
            assert(preferred_kind(refs2, r2[i].1) == Some(r2[i].0));
            assert(preferred_kind(refs1, u) is Some);
            let k = choose|k: int| 0 <= k < r1.len() && r1[k].1 == u;
            assert(a[k] == u);
        }
    }
    lemma_sorted_unique(a, b);
    assert forall|i: int| 0 <= i < r1.len() implies r1[i] == r2[i] by {
        assert(a[i] == b[i]);
        assert(preferred_kind(refs1, r1[i].1) == Some(r1[i].0));
        assert(preferred_kind(refs2, r2[i].1) == Some(r2[i].0));
    }
    assert(r1 =~= r2);
}

/// A `link` element whose `rel` is not exactly `stylesheet` adds nothing to
/// discovery, whatever its `href`.
pub proof fn lemma_other_links_ignored(base: Seq<char>, tags: Seq<TagModel>, link: TagModel)
    requires
        link.0 == "link"@,
        attribute_of(link, "rel"@) != Some("stylesheet"@),
    ensures
        references(base, tags.push(link)) == references(base, tags),
{
    assert(tags.push(link).drop_last() =~= tags);
    assert(tags.push(link).last() == link);
    assert("link"@ != "img"@) by {
        reveal_strlit("link");
        reveal_strlit("img");
        assert("link"@.len() != "img"@.len());
    }
    assert(tag_reference(base, link) is None);
}

/// An `img` whose `src` resolves to a URL stored as an image gets exactly
/// one change: its `src` becomes the `data:` URI of the stored bytes with
/// the stored mimetype.
pub proof fn lemma_image_embedded(
    base: Seq<char>,
    map: Map<Seq<char>, ResourceData>,
    i: int,
    img: TagModel,
    src: Seq<char>,
    u: Seq<char>,
    bytes: Seq<u8>,
    mimetype: Seq<char>,
)
    requires
        img.0 == "img"@,
        attribute_of(img, "src"@) == Some(src),
        joined_url(base, src) == Some(u),
        map.contains_key(u),
        map[u] == ResourceData::Image(bytes, mimetype),
    ensures
        element_edits(base, map, i, img) == seq![EditModel::SetAttribute(i, "src"@, data_uri(mimetype, bytes))],
{
}

/// An `img` whose `src` resolves to a URL with no stored resource is left
/// unchanged.
pub proof fn lemma_absent_image_untouched(
    base: Seq<char>,
    map: Map<Seq<char>, ResourceData>,
    i: int,
    img: TagModel,
    src: Seq<char>,
    u: Seq<char>,
)
    requires
        img.0 == "img"@,
        attribute_of(img, "src"@) == Some(src),
        joined_url(base, src) == Some(u),
        !map.contains_key(u),
    ensures
        element_edits(base, map, i, img) == Seq::<EditModel>::empty(),
{
}

/// A `script` with a `src` loses its `src`, whether or not its script was
/// stored; nothing else happens to it where none was.
pub proof fn lemma_script_source_removed(
    base: Seq<char>,
    map: Map<Seq<char>, ResourceData>,
    i: int,
    script: TagModel,
)
    requires
        script.0 == "script"@,
        attribute_of(script, "src"@) is Some,
    ensures
        element_edits(base, map, i, script).len() >= 1,
        element_edits(base, map, i, script).last() == EditModel::RemoveAttribute(i, "src"@),
        match attribute_of(script, "src"@) {
            Some(s) => match joined_url(base, s) {
                Some(u) => !(map.contains_key(u) && map[u] is Javascript) ==> element_edits(base, map, i, script)
                    == seq![EditModel::RemoveAttribute(i, "src"@)],
                None => element_edits(base, map, i, script) == seq![EditModel::RemoveAttribute(i, "src"@)],
            },
            None => true,
        },
{
    assert("script"@ != "img"@) by {
        reveal_strlit("script");
        reveal_strlit("img");
        assert("script"@.len() != "img"@.len());
    }
    assert("script"@ != "link"@) by {
        reveal_strlit("script");
        reveal_strlit("link");
        assert("script"@.len() != "link"@.len());
    }
}

/// Bytes that begin with the PNG signature are classified `image/png`,
/// whatever the URL.
pub proof fn lemma_png_signature_wins(data: Seq<u8>, path: Seq<char>)
    requires
        data.len() >= 8,
        data[0] == 0x89u8,
        data[1] == 0x50u8,
        data[2] == 0x4Eu8,
        data[3] == 0x47u8,
        data[4] == 0x0Du8,
        data[5] == 0x0Au8,
        data[6] == 0x1Au8,
        data[7] == 0x0Au8,
    ensures
        sniffed_mimetype(data, path) == "image/png"@,
{
    let t = magic_table();
    assert(t[0].0[0] == Some(0x47u8));
    assert(!signature_matches(data, t[0].0));
    assert(t[1].0[0] == Some(0x47u8));
    assert(!signature_matches(data, t[1].0));
    assert(t[2].0[0] == Some(0xFFu8));
    assert(!signature_matches(data, t[2].0));
    assert(signature_matches(data, t[3].0));
    assert(first_signature_from(data, 3) == Some(t[3].1));
    assert(first_signature_from(data, 2) == Some(t[3].1));
    assert(first_signature_from(data, 1) == Some(t[3].1));
    assert(first_signature_from(data, 0) == Some(t[3].1));
}

/// A response without a 2xx status leaves the resource map as it was: a
/// resource that failed to fetch never becomes an entry.
pub proof fn lemma_failed_response_skipped(
    map: Map<Seq<char>, ResourceData>,
    kind: ResourceKind,
    u: Seq<char>,
    path: Seq<char>,
    status: u16,
    body: ResponseBody,
)
    requires
        !is_success_status(status),
    ensures
        recorded(map, kind, u, path, status, body) == map,
{
}

/// A 2xx response whose body was read as its kind asks is stored under its
/// URL, and no other entry changes.
pub proof fn lemma_successful_response_stored(
    map: Map<Seq<char>, ResourceData>,
    kind: ResourceKind,
    u: Seq<char>,
    path: Seq<char>,
    status: u16,
    body: ResponseBody,
)
    requires
        is_success_status(status),
        (kind == ResourceKind::Image) == (body is Bytes),
    ensures
        recorded(map, kind, u, path, status, body).contains_key(u),
        recorded(map, kind, u, path, status, body).remove(u) == map.remove(u),
{
    assert(recorded(map, kind, u, path, status, body).remove(u) =~= map.remove(u));
}

} // verus!

//! What holds of the catalog's operations taken together.

use vstd::prelude::*;
use crate::catalog::{
    catalog_wf, category_name, category_names, created, deleted, has_category, has_product,
    link_pairs, links_of, links_without, listing, matching, names_along, names_sorted, page,
    record_of, response_of, responses, updated, CatalogState,
};
use crate::model::ProductRecord;
use crate::text::text_le;

verus! {

/// The names of the given categories, in order.
pub open spec fn names_of_targets(st: CatalogState, targets: Seq<u128>) -> Seq<Seq<char>> {
    targets.map_values(|c: u128| category_name(st, c))
}

proof fn lemma_matching_members(s: Seq<ProductRecord>, search: Option<Seq<char>>)
    ensures
        forall|k: int| 0 <= k < matching(s, search).len() ==> s.contains(#[trigger] matching(s, search)[k]),
        names_sorted(s) ==> names_sorted(matching(s, search)),
    decreases s.len(),
{
    if s.len() > 0 {
        let d = s.drop_last();
        lemma_matching_members(d, search);
        let rest = matching(d, search);
        assert forall|k: int| 0 <= k < rest.len() implies s.contains(#[trigger] rest[k]) by {
            let m = choose|m: int| 0 <= m < d.len() && d[m] == rest[k];
            assert(s[m] == rest[k]);
        }
        assert(s[s.len() - 1] == s.last());
        if names_sorted(s) {
            assert(names_sorted(d));
            let t = matching(s, search);
            assert forall|a: int, b: int| 0 <= a < b < t.len() implies text_le(#[trigger] t[a].name, #[trigger] t[b].name) by {
                if b == rest.len() {
                    assert(t[a] == rest[a]);
                    let m = choose|m: int| 0 <= m < d.len() && d[m] == rest[a];
                    assert(s[m] == rest[a]);
                    assert(text_le(s[m].name, s[s.len() - 1].name));
                } else {
                    assert(t[a] == rest[a] && t[b] == rest[b]);
                }
            }
        }
    }
}

/// A page of a listing holds at most `limit` products: those that follow the
/// first `offset` matches, and the matches are in name order.
pub proof fn law_page_of_listing(st: CatalogState, search: Option<Seq<char>>, offset: int, limit: int)
    requires
        catalog_wf(st),
        offset >= 0,
        limit >= 0,
    ensures
        page(listing(st, search), offset, limit).len() <= limit,
        offset + limit <= listing(st, search).len() ==> page(listing(st, search), offset, limit).len()
            == limit,
        forall|k: int| 0 <= k < page(listing(st, search), offset, limit).len()
            ==> #[trigger] page(listing(st, search), offset, limit)[k] == listing(st, search)[offset + k],
        forall|i: int, j: int| 0 <= i < j < listing(st, search).len()
            ==> text_le(#[trigger] listing(st, search)[i].name, #[trigger] listing(st, search)[j].name),
{
    lemma_matching_members(st.products, search);
    let m = matching(st.products, search);
    let l = listing(st, search);
    assert(l == responses(st, m));
    assert forall|i: int, j: int| 0 <= i < j < l.len() implies text_le(#[trigger] l[i].name, #[trigger] l[j].name) by {
        assert(l[i].name == m[i].name && l[j].name == m[j].name);
    }
}

proof fn lemma_no_links_of_missing(st: CatalogState, id: u128)
    requires
        catalog_wf(st),
        !has_product(st, id),
    ensures
        forall|k: int| 0 <= k < st.links.len() ==> (#[trigger] st.links[k]).0 != id,
{
    assert forall|k: int| 0 <= k < st.links.len() implies (#[trigger] st.links[k]).0 != id by {
        assert(has_product(st, st.links[k].0));
    }
}

proof fn lemma_links_of_none(links: Seq<(u128, u128)>, id: u128)
    requires
        forall|k: int| 0 <= k < links.len() ==> (#[trigger] links[k]).0 != id,
    ensures
        links_of(links, id) == Seq::<(u128, u128)>::empty(),
    decreases links.len(),
{
    if links.len() > 0 {
        lemma_links_of_none(links.drop_last(), id);
    } else {
        assert(links =~= Seq::<(u128, u128)>::empty());
    }
}

proof fn lemma_links_of_plus(a: Seq<(u128, u128)>, b: Seq<(u128, u128)>, id: u128)
    ensures
        links_of(a + b, id) == links_of(a, id) + links_of(b, id),
    decreases b.len(),
{
    if b.len() == 0 {
        assert(a + b =~= a);
        assert(links_of(a, id) + links_of(b, id) =~= links_of(a, id));
    } else {
        lemma_links_of_plus(a, b.drop_last(), id);
        assert((a + b).drop_last() =~= a + b.drop_last());
        assert((a + b).last() == b.last());
        if b.last().0 == id {
            assert(links_of(a, id) + links_of(b.drop_last(), id).push(b.last()) =~= (links_of(a, id)
                + links_of(b.drop_last(), id)).push(b.last()));
        }
    }
}

proof fn lemma_links_of_own_pairs(id: u128, targets: Seq<u128>)
    ensures
        links_of(link_pairs(id, targets), id) == link_pairs(id, targets),
    decreases targets.len(),
{
    if targets.len() > 0 {
        lemma_links_of_own_pairs(id, targets.drop_last());
        assert(link_pairs(id, targets).drop_last() =~= link_pairs(id, targets.drop_last()));
    } else {
        assert(link_pairs(id, targets) =~= Seq::<(u128, u128)>::empty());
    }
}

proof fn lemma_links_of_other_pairs(id: u128, other: u128, targets: Seq<u128>)
    requires
        id != other,
    ensures
        links_of(link_pairs(id, targets), other) == Seq::<(u128, u128)>::empty(),
{
    assert forall|k: int| 0 <= k < link_pairs(id, targets).len() implies (#[trigger] link_pairs(id, targets)[k]).0 != other by {}
    lemma_links_of_none(link_pairs(id, targets), other);
}

proof fn lemma_links_of_without(links: Seq<(u128, u128)>, id: u128, other: u128)
    ensures
        other != id ==> links_of(links_without(links, id), other) == links_of(links, other),
        links_of(links_without(links, id), id) == Seq::<(u128, u128)>::empty(),
    decreases links.len(),
{
    if links.len() > 0 {
        lemma_links_of_without(links.drop_last(), id, other);
        let rest = links_without(links.drop_last(), id);
        let l = links.last();
        if l.0 != id {
            assert(rest.push(l).drop_last() =~= rest);
            assert(rest.push(l).last() == l);
            if other != id && l.0 == other {
                assert(links_of(rest.push(l), other) == links_of(rest, other).push(l));
            }
        }
    } else {
        assert(links_without(links, id) =~= Seq::<(u128, u128)>::empty());
        assert(links_of(links, other) =~= Seq::<(u128, u128)>::empty());
        assert(links_of(links_without(links, id), id) =~= Seq::<(u128, u128)>::empty());
    }
}

proof fn lemma_names_of_pairs(st: CatalogState, id: u128, targets: Seq<u128>)
    ensures
        names_along(st, link_pairs(id, targets)) == names_of_targets(st, targets),
{
    assert(names_along(st, link_pairs(id, targets)) =~= names_of_targets(st, targets));
}

/// A product read back after it is created has the fields it was created
/// with, and the names of exactly the categories it was linked to, in order;
/// the creation adds one product and its links, and changes nothing else.
pub proof fn law_create_then_read(st: CatalogState, rec: ProductRecord, targets: Seq<u128>)
    requires
        catalog_wf(st),
        !has_product(st, rec.id),
        forall|t: int| 0 <= t < targets.len() ==> has_category(st, #[trigger] targets[t]),
    ensures
        has_product(created(st, rec, targets), rec.id),
        record_of(created(st, rec, targets), rec.id) == rec,
        response_of(created(st, rec, targets), rec).categories == names_of_targets(st, targets),
        response_of(created(st, rec, targets), rec).categories.to_set() == names_of_targets(st, targets).to_set(),
        created(st, rec, targets).products.len() == st.products.len() + 1,
        created(st, rec, targets).links == st.links + link_pairs(rec.id, targets),
        created(st, rec, targets).categories == st.categories,
{
    let st2 = created(st, rec, targets);
    crate::catalog::lemma_created_wf(st, rec, targets);
    crate::catalog::lemma_insertion_exists(st.products, rec.name);
    lemma_no_links_of_missing(st, rec.id);
    lemma_links_of_none(st.links, rec.id);
    lemma_links_of_plus(st.links, link_pairs(rec.id, targets), rec.id);
    lemma_links_of_own_pairs(rec.id, targets);
    assert(links_of(st2.links, rec.id) =~= link_pairs(rec.id, targets));
    lemma_names_of_pairs(st2, rec.id, targets);
    assert(names_of_targets(st2, targets) =~= names_of_targets(st, targets));
}

/// After a deletion the product is gone, so deleting it again removes
/// nothing; deleting a product that is not stored changes nothing.
pub proof fn law_delete_missing(st: CatalogState, id: u128)
    requires
        catalog_wf(st),
    ensures
        catalog_wf(deleted(st, id)),
        !has_product(deleted(st, id), id),
        !has_product(st, id) ==> deleted(st, id) == st,
{
    crate::catalog::lemma_deleted_wf(st, id);
    if !has_product(st, id) {
        lemma_no_links_of_missing(st, id);
        lemma_links_without_none(st.links, id);
    }
}

proof fn lemma_links_without_none(links: Seq<(u128, u128)>, id: u128)
    requires
        forall|k: int| 0 <= k < links.len() ==> (#[trigger] links[k]).0 != id,
    ensures
        links_without(links, id) == links,
    decreases links.len(),
{
    if links.len() > 0 {
        lemma_links_without_none(links.drop_last(), id);
        assert(links.drop_last().push(links.last()) =~= links);
    }
}

/// An update with no categories leaves every link as it was; one with
/// categories leaves the product linked to exactly those, in order (no old
/// link remains), and the links of every other product as they were.
pub proof fn law_update_links(st: CatalogState, rec: ProductRecord, targets: Seq<u128>, other: u128)
    requires
        catalog_wf(st),
        has_product(st, rec.id),
        forall|t: int| 0 <= t < targets.len() ==> has_category(st, #[trigger] targets[t]),
    ensures
        targets.len() == 0 ==> updated(st, rec, targets).links == st.links,
        targets.len() > 0 ==> category_names(updated(st, rec, targets), rec.id) == names_of_targets(st, targets),
        targets.len() > 0 ==> links_of(updated(st, rec, targets).links, rec.id) == link_pairs(rec.id, targets),
        other != rec.id ==> links_of(updated(st, rec, targets).links, other) == links_of(st.links, other),
{
    let st2 = updated(st, rec, targets);
    if targets.len() > 0 {
        let w = links_without(st.links, rec.id);
        lemma_links_of_plus(w, link_pairs(rec.id, targets), rec.id);
        lemma_links_of_without(st.links, rec.id, other);
        lemma_links_of_own_pairs(rec.id, targets);
        assert(links_of(st2.links, rec.id) =~= link_pairs(rec.id, targets));
        lemma_names_of_pairs(st2, rec.id, targets);
        assert(names_of_targets(st2, targets) =~= names_of_targets(st, targets));
        if other != rec.id {
            lemma_links_of_plus(w, link_pairs(rec.id, targets), other);
            lemma_links_of_other_pairs(rec.id, other, targets);
            assert(links_of(st2.links, other) =~= links_of(st.links, other));
        }
    }
}

} // verus!

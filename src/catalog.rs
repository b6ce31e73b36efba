//! The product store as a value: products kept in name order, categories,
//! and the links between them, with the operations of the repository.

use vstd::prelude::*;
use vstd::string::*;
use crate::error::AppError;
use crate::ids::{fresh_uuid, parse_uuid, uuid_of};
use crate::model::{
    copy_text, opt_text, texts, Categories, Product, ProductForm, ProductRecord, ProductResponse, ResponseRecord,
};
use crate::pagination::Pagination;
use crate::service::{form_valid, found_or_none, removal_outcome, validate_form};
use crate::text::{
    contains, contains_text, lemma_text_le_total, lemma_text_le_transitive, lower_of, lowercase,
    text_le, text_le_exec,
};

verus! {

/// A category as a value: its identifier and name.
pub type CategoryRecord = (u128, Seq<char>);

/// The contents of a catalog.
pub struct CatalogState {
    pub products: Seq<ProductRecord>,
    pub categories: Seq<CategoryRecord>,
    /// (product, category) pairs.
    pub links: Seq<(u128, u128)>,
}

/// An in-memory product store with the behaviour of the relational one,
/// except that names are ordered by character code (`text_le`) rather than
/// by a database collation.
pub struct Catalog {
    products: Vec<Product>,
    categories: Vec<Categories>,
    links: Vec<(u128, u128)>,
}

impl View for Catalog {
    type V = CatalogState;

    closed spec fn view(&self) -> CatalogState {
        CatalogState {
            products: self.products@.map_values(|p: Product| p@),
            categories: self.categories@.map_values(|c: Categories| (c.id, c.name@)),
            links: self.links@,
        }
    }
}

pub open spec fn has_product(st: CatalogState, id: u128) -> bool {
    exists|i: int| 0 <= i < st.products.len() && #[trigger] st.products[i].id == id
}

pub open spec fn has_category(st: CatalogState, id: u128) -> bool {
    exists|i: int| 0 <= i < st.categories.len() && #[trigger] st.categories[i].0 == id
}

/// The stored product with identifier `id`.
pub open spec fn record_of(st: CatalogState, id: u128) -> ProductRecord {
    st.products[choose|i: int| 0 <= i < st.products.len() && #[trigger] st.products[i].id == id]
}

/// The name of the category with identifier `id`.
pub open spec fn category_name(st: CatalogState, id: u128) -> Seq<char> {
    st.categories[choose|i: int|
        0 <= i < st.categories.len() && #[trigger] st.categories[i].0 == id].1
}

/// The links of product `id`, in order.
pub open spec fn links_of(links: Seq<(u128, u128)>, id: u128) -> Seq<(u128, u128)>
    decreases links.len(),
{
    if links.len() == 0 {
        links
    } else {
        let rest = links_of(links.drop_last(), id);
        if links.last().0 == id {
            rest.push(links.last())
        } else {
            rest
        }
    }
}

/// The links of every product but `id`, in order.
pub open spec fn links_without(links: Seq<(u128, u128)>, id: u128) -> Seq<(u128, u128)>
    decreases links.len(),
{
    if links.len() == 0 {
        links
    } else {
        let rest = links_without(links.drop_last(), id);
        if links.last().0 != id {
            rest.push(links.last())
        } else {
            rest
        }
    }
}

/// The names of the categories that links lead to.
pub open spec fn names_along(st: CatalogState, links: Seq<(u128, u128)>) -> Seq<Seq<char>> {
    links.map_values(|l: (u128, u128)| category_name(st, l.1))
}

/// The names of the categories of product `id`, in the order they were linked.
pub open spec fn category_names(st: CatalogState, id: u128) -> Seq<Seq<char>> {
    names_along(st, links_of(st.links, id))
}

/// A stored product as it is read.
pub open spec fn response_of(st: CatalogState, p: ProductRecord) -> ResponseRecord {
    ResponseRecord {
        id: p.id,
        name: p.name,
        brand: p.brand,
        image_url: p.image_url,
        categories: category_names(st, p.id),
        facts: p.facts,
    }
}

pub open spec fn names_sorted(s: Seq<ProductRecord>) -> bool {
    forall|i: int, j: int| 0 <= i < j < s.len() ==> text_le(#[trigger] s[i].name, #[trigger] s[j].name)
}

pub open spec fn product_ids_unique(s: Seq<ProductRecord>) -> bool {
    forall|i: int, j: int| 0 <= i < j < s.len() ==> #[trigger] s[i].id != #[trigger] s[j].id
}

pub open spec fn category_ids_unique(s: Seq<CategoryRecord>) -> bool {
    forall|i: int, j: int| 0 <= i < j < s.len() ==> #[trigger] s[i].0 != #[trigger] s[j].0
}

/// Products are in name order with distinct identifiers, categories have
/// distinct identifiers, and every link joins a stored product to a stored
/// category.
pub open spec fn catalog_wf(st: CatalogState) -> bool {
    &&& names_sorted(st.products)
    &&& product_ids_unique(st.products)
    &&& category_ids_unique(st.categories)
    &&& forall|k: int| 0 <= k < st.links.len() ==> has_product(st, #[trigger] st.links[k].0)
        && has_category(st, st.links[k].1)
}

/// The product's name or brand contains the search text, ignoring case.
pub open spec fn matches_search(p: ProductRecord, search: Option<Seq<char>>) -> bool {
    match search {
        None => true,
        Some(q) => contains_text(lower_of(p.name), lower_of(q)) || match p.brand {
            Some(b) => contains_text(lower_of(b), lower_of(q)),
            None => false,
        },
    }
}

/// The products that match the search, in their order.
pub open spec fn matching(products: Seq<ProductRecord>, search: Option<Seq<char>>) -> Seq<
    ProductRecord,
>
    decreases products.len(),
{
    if products.len() == 0 {
        products
    } else {
        let rest = matching(products.drop_last(), search);
        if matches_search(products.last(), search) {
            rest.push(products.last())
        } else {
            rest
        }
    }
}

pub open spec fn responses(st: CatalogState, ps: Seq<ProductRecord>) -> Seq<ResponseRecord> {
    ps.map_values(|p: ProductRecord| response_of(st, p))
}

/// Every product that matches the search, in name order, as it is read.
pub open spec fn listing(st: CatalogState, search: Option<Seq<char>>) -> Seq<ResponseRecord> {
    responses(st, matching(st.products, search))
}

/// At most `limit` items of `s`, after the first `offset`.
pub open spec fn page<A>(s: Seq<A>, offset: int, limit: int) -> Seq<A> {
    let start = if offset < s.len() { offset } else { s.len() as int };
    let end = if offset + limit < s.len() { offset + limit } else { s.len() as int };
    s.subrange(start, end)
}

pub open spec fn response_views(v: Seq<ProductResponse>) -> Seq<ResponseRecord> {
    v.map_values(|r: ProductResponse| r@)
}

/// `k` is where a product named `name` goes in `s`: after every product whose
/// name comes no later, before every other.
pub open spec fn insertion_point(s: Seq<ProductRecord>, name: Seq<char>, k: int) -> bool {
    &&& 0 <= k <= s.len()
    &&& forall|i: int| 0 <= i < k ==> text_le(#[trigger] s[i].name, name)
    &&& forall|i: int| k <= i < s.len() ==> !text_le(#[trigger] s[i].name, name)
}

/// `s` with `rec` added in name order, after those of equal name.
pub open spec fn insert_sorted(s: Seq<ProductRecord>, rec: ProductRecord) -> Seq<ProductRecord> {
    s.insert(choose|k: int| insertion_point(s, rec.name, k), rec)
}

/// The position of product `id` among the products.
pub open spec fn index_of(st: CatalogState, id: u128) -> int {
    choose|i: int| 0 <= i < st.products.len() && #[trigger] st.products[i].id == id
}

/// The links from product `id` to each of `targets`, in order.
pub open spec fn link_pairs(id: u128, targets: Seq<u128>) -> Seq<(u128, u128)> {
    targets.map_values(|c: u128| (id, c))
}

/// Every text is a UUID of a stored category.
pub open spec fn targets_ok(st: CatalogState, ids: Seq<Seq<char>>) -> bool {
    forall|i: int| 0 <= i < ids.len() ==> (#[trigger] uuid_of(ids[i]) matches Some(c) && has_category(st, c))
}

/// The categories that texts name.
pub open spec fn targets_of(ids: Seq<Seq<char>>) -> Seq<u128> {
    ids.map_values(|t: Seq<char>| uuid_of(t)->0)
}

/// The product a form describes, under identifier `id`.
pub open spec fn record_from(form: ProductForm, id: u128) -> ProductRecord {
    ProductRecord {
        id,
        name: form.name@,
        brand: opt_text(form.brand),
        image_url: opt_text(form.image_url),
        facts: form.facts,
    }
}

/// The catalog after product `rec` is stored with links to `targets`.
pub open spec fn created(st: CatalogState, rec: ProductRecord, targets: Seq<u128>) -> CatalogState {
    CatalogState {
        products: insert_sorted(st.products, rec),
        categories: st.categories,
        links: st.links + link_pairs(rec.id, targets),
    }
}

/// The catalog after product `id` and its links are removed.
pub open spec fn deleted(st: CatalogState, id: u128) -> CatalogState {
    CatalogState {
        products: if has_product(st, id) {
            st.products.remove(index_of(st, id))
        } else {
            st.products
        },
        categories: st.categories,
        links: links_without(st.links, id),
    }
}

/// The catalog after stored product `rec.id` takes the fields of `rec`; its
/// links are replaced by links to `targets`, unless `targets` is empty.
pub open spec fn updated(st: CatalogState, rec: ProductRecord, targets: Seq<u128>) -> CatalogState {
    CatalogState {
        products: insert_sorted(st.products.remove(index_of(st, rec.id)), rec),
        categories: st.categories,
        links: if targets.len() == 0 {
            st.links
        } else {
            links_without(st.links, rec.id) + link_pairs(rec.id, targets)
        },
    }
}

proof fn lemma_insertion_point_unique(s: Seq<ProductRecord>, name: Seq<char>, j: int)
    requires
        insertion_point(s, name, j),
    ensures
        (choose|k: int| insertion_point(s, name, k)) == j,
{
    let k = choose|k: int| insertion_point(s, name, k);
    if k < j {
        assert(text_le(s[k].name, name));
    } else if j < k {
        assert(text_le(s[j].name, name));
    }
}

proof fn lemma_insert_keeps_order(s: Seq<ProductRecord>, rec: ProductRecord, j: int)
    requires
        names_sorted(s),
        insertion_point(s, rec.name, j),
    ensures
        names_sorted(s.insert(j, rec)),
{
    let t = s.insert(j, rec);
    assert forall|a: int, b: int| 0 <= a < b < t.len() implies text_le(#[trigger] t[a].name, #[trigger] t[b].name) by {
        if b == j {
            assert(t[a] == s[a]);
        } else if a == j {
            assert(t[b] == s[b - 1]);
            lemma_text_le_total(rec.name, s[b - 1].name);
        } else if b < j {
            assert(t[a] == s[a] && t[b] == s[b]);
        } else if a < j {
            assert(t[a] == s[a] && t[b] == s[b - 1]);
        } else {
            assert(t[a] == s[a - 1] && t[b] == s[b - 1]);
        }
    }
}

proof fn lemma_links_without_members(links: Seq<(u128, u128)>, id: u128)
    ensures
        forall|k: int| 0 <= k < links_without(links, id).len() ==> (#[trigger] links_without(links, id)[k]).0 != id
            && links.contains(links_without(links, id)[k]),
    decreases links.len(),
{
    if links.len() > 0 {
        lemma_links_without_members(links.drop_last(), id);
        let rest = links_without(links.drop_last(), id);
        assert forall|k: int| 0 <= k < rest.len() implies links.contains(#[trigger] rest[k]) by {
            assert(links.drop_last().contains(rest[k]));
            let m = choose|m: int| 0 <= m < links.drop_last().len() && links.drop_last()[m] == rest[k];
            assert(links[m] == rest[k]);
        }
        assert(links[links.len() - 1] == links.last());
    }
}

pub(crate) proof fn lemma_created_wf(st: CatalogState, rec: ProductRecord, targets: Seq<u128>)
    requires
        catalog_wf(st),
        !has_product(st, rec.id),
        forall|t: int| 0 <= t < targets.len() ==> has_category(st, #[trigger] targets[t]),
    ensures
        catalog_wf(created(st, rec, targets)),
        has_product(created(st, rec, targets), rec.id),
        record_of(created(st, rec, targets), rec.id) == rec,
{
    let s = st.products;
    let j = choose|k: int| insertion_point(s, rec.name, k);
    let st2 = created(st, rec, targets);
    let t = st2.products;
    lemma_insertion_exists(s, rec.name);
    lemma_insert_keeps_order(s, rec, j);
    assert(t == s.insert(j, rec));
    assert(t[j] == rec);
    assert forall|a: int, b: int| 0 <= a < b < t.len() implies #[trigger] t[a].id != #[trigger] t[b].id by {
        if a == j {
            assert(t[b] == s[b - 1]);
        } else if b == j {
            assert(t[a] == s[a]);
        } else {
            let a0 = if a < j { a } else { a - 1 };
            let b0 = if b < j { b } else { b - 1 };
            assert(t[a] == s[a0] && t[b] == s[b0]);
        }
    }
    assert forall|k: int| 0 <= k < st2.links.len() implies has_product(st2, #[trigger] st2.links[k].0)
        && has_category(st2, st2.links[k].1) by {
        if k < st.links.len() {
            assert(st2.links[k] == st.links[k]);
            let x = st.links[k].0;
            assert(has_product(st, x));
            let m = choose|m: int| 0 <= m < s.len() && #[trigger] s[m].id == x;
            if m < j {
                assert(t[m] == s[m]);
                assert(t[m].id == x);
            } else {
                assert(t[m + 1] == s[m]);
                assert(t[m + 1].id == x);
            }
            assert(has_product(st2, x));
            assert(has_category(st, st.links[k].1));
            assert(st2.categories == st.categories);
        } else {
            let q = k - st.links.len();
            assert(st2.links[k] == (rec.id, targets[q]));
            assert(has_category(st, targets[q]));
            assert(st2.categories == st.categories);
            assert(t[j].id == rec.id);
        }
    }
    lemma_record_of_unique(st2, rec.id, j);
}

proof fn lemma_record_of_unique(st: CatalogState, id: u128, i: int)
    requires
        product_ids_unique(st.products),
        0 <= i < st.products.len(),
        st.products[i].id == id,
    ensures
        record_of(st, id) == st.products[i],
        index_of(st, id) == i,
        has_product(st, id),
{
    let k = choose|k: int| 0 <= k < st.products.len() && #[trigger] st.products[k].id == id;
    if k < i {
        assert(st.products[k].id != st.products[i].id);
    } else if i < k {
        assert(st.products[i].id != st.products[k].id);
    }
}

pub(crate) proof fn lemma_insertion_exists(s: Seq<ProductRecord>, name: Seq<char>)
    requires
        names_sorted(s),
    ensures
        insertion_point(s, name, choose|k: int| insertion_point(s, name, k)),
{
    let j = first_later(s, name, 0);
    lemma_first_later(s, name, 0);
    assert forall|i: int| j <= i < s.len() implies !text_le(#[trigger] s[i].name, name) by {
        if text_le(s[i].name, name) && j < i {
            lemma_text_le_transitive(s[j].name, s[i].name, name);
        }
    }
    assert(insertion_point(s, name, j));
}

/// The first position at or after `from` whose name comes later than `name`.
spec fn first_later(s: Seq<ProductRecord>, name: Seq<char>, from: int) -> int
    decreases s.len() - from,
{
    if from >= s.len() || !text_le(s[from].name, name) {
        from
    } else {
        first_later(s, name, from + 1)
    }
}

proof fn lemma_first_later(s: Seq<ProductRecord>, name: Seq<char>, from: int)
    requires
        0 <= from <= s.len(),
    ensures
        from <= first_later(s, name, from) <= s.len(),
        forall|i: int| from <= i < first_later(s, name, from) ==> text_le(#[trigger] s[i].name, name),
        first_later(s, name, from) < s.len() ==> !text_le(s[first_later(s, name, from)].name, name),
    decreases s.len() - from,
{
    if from < s.len() && text_le(s[from].name, name) {
        lemma_first_later(s, name, from + 1);
    }
}

pub(crate) proof fn lemma_deleted_wf(st: CatalogState, id: u128)
    requires
        catalog_wf(st),
    ensures
        catalog_wf(deleted(st, id)),
        !has_product(deleted(st, id), id),
{
    let st2 = deleted(st, id);
    let s = st.products;
    lemma_links_without_members(st.links, id);
    if has_product(st, id) {
        let i = index_of(st, id);
        let t = st2.products;
        assert(t == s.remove(i));
        assert forall|a: int, b: int| 0 <= a < b < t.len() implies text_le(#[trigger] t[a].name, #[trigger] t[b].name)
            && t[a].id != t[b].id by {
            let a0 = if a < i { a } else { a + 1 };
            let b0 = if b < i { b } else { b + 1 };
            assert(t[a] == s[a0] && t[b] == s[b0]);
        }
        assert forall|k: int| 0 <= k < t.len() implies #[trigger] t[k].id != id by {
            let k0 = if k < i { k } else { k + 1 };
            assert(t[k] == s[k0]);
        }
        assert forall|k: int| 0 <= k < st2.links.len() implies has_product(st2, #[trigger] st2.links[k].0)
            && has_category(st2, st2.links[k].1) by {
            let l = st2.links[k];
            assert(st.links.contains(l));
            let n = choose|n: int| 0 <= n < st.links.len() && st.links[n] == l;
            assert(has_product(st, st.links[n].0));
            assert(has_category(st, st.links[n].1));
            let c = choose|c: int| 0 <= c < st.categories.len() && #[trigger] st.categories[c].0 == l.1;
            assert(st2.categories[c].0 == l.1);
            let m = choose|m: int| 0 <= m < s.len() && #[trigger] s[m].id == l.0;
            if m < i {
                assert(t[m] == s[m]);
                assert(t[m].id == l.0);
            } else {
                assert(m != i);
                assert(t[m - 1] == s[m]);
                assert(t[m - 1].id == l.0);
            }
        }
    } else {
        assert forall|k: int| 0 <= k < st2.links.len() implies has_product(st2, #[trigger] st2.links[k].0)
            && has_category(st2, st2.links[k].1) by {
            let l = st2.links[k];
            assert(st.links.contains(l));
            let n = choose|n: int| 0 <= n < st.links.len() && st.links[n] == l;
            assert(has_product(st, st.links[n].0));
            assert(has_category(st, st.links[n].1));
            let c = choose|c: int| 0 <= c < st.categories.len() && #[trigger] st.categories[c].0 == l.1;
            assert(st2.categories[c].0 == l.1);
            let m = choose|m: int| 0 <= m < s.len() && #[trigger] s[m].id == l.0;
            assert(st2.products[m].id == l.0);
        }
    }
}

proof fn lemma_updated_wf(st: CatalogState, rec: ProductRecord, targets: Seq<u128>)
    requires
        catalog_wf(st),
        has_product(st, rec.id),
        forall|t: int| 0 <= t < targets.len() ==> has_category(st, #[trigger] targets[t]),
    ensures
        catalog_wf(updated(st, rec, targets)),
        has_product(updated(st, rec, targets), rec.id),
        record_of(updated(st, rec, targets), rec.id) == rec,
{
    let id = rec.id;
    let i = index_of(st, id);
    let s = st.products;
    let s1 = s.remove(i);
    let mid = CatalogState { products: s1, categories: st.categories, links: st.links };
    assert forall|a: int, b: int| 0 <= a < b < s1.len() implies text_le(#[trigger] s1[a].name, #[trigger] s1[b].name)
        && s1[a].id != s1[b].id by {
        let a0 = if a < i { a } else { a + 1 };
        let b0 = if b < i { b } else { b + 1 };
        assert(s1[a] == s[a0] && s1[b] == s[b0]);
    }
    assert forall|k: int| 0 <= k < s1.len() implies #[trigger] s1[k].id != id by {
        let k0 = if k < i { k } else { k + 1 };
        assert(s1[k] == s[k0]);
    }
    lemma_insertion_exists(s1, rec.name);
    let j = choose|k: int| insertion_point(s1, rec.name, k);
    lemma_insert_keeps_order(s1, rec, j);
    let st2 = updated(st, rec, targets);
    let t = st2.products;
    assert(t == s1.insert(j, rec));
    assert(t[j] == rec);
    assert forall|a: int, b: int| 0 <= a < b < t.len() implies #[trigger] t[a].id != #[trigger] t[b].id by {
        if a == j {
            assert(t[b] == s1[b - 1]);
        } else if b == j {
            assert(t[a] == s1[a]);
        } else {
            let a0 = if a < j { a } else { a - 1 };
            let b0 = if b < j { b } else { b - 1 };
            assert(t[a] == s1[a0] && t[b] == s1[b0]);
        }
    }
    lemma_links_without_members(st.links, id);
    assert forall|x: u128| has_product(st, x) implies has_product(st2, x) by {
        if x == id {
            assert(t[j].id == x);
        } else {
            let m = choose|m: int| 0 <= m < s.len() && #[trigger] s[m].id == x;
            let m1 = if m < i { m } else { m - 1 };
            assert(m != i);
            assert(s1[m1] == s[m]);
            if m1 < j {
                assert(t[m1] == s1[m1]);
            } else {
                assert(t[m1 + 1] == s1[m1]);
            }
        }
    }
    assert forall|k: int| 0 <= k < st2.links.len() implies has_product(st2, #[trigger] st2.links[k].0)
        && has_category(st2, st2.links[k].1) by {
        let l = st2.links[k];
        if targets.len() == 0 {
            assert(l == st.links[k]);
            assert(has_product(st, l.0));
            assert(has_category(st, l.1));
        } else {
            let w = links_without(st.links, id);
            if k < w.len() {
                assert(l == w[k]);
                assert(st.links.contains(l));
                let n = choose|n: int| 0 <= n < st.links.len() && st.links[n] == l;
                assert(has_product(st, st.links[n].0));
                assert(has_category(st, st.links[n].1));
            } else {
                let q = k - w.len();
                assert(l == (id, targets[q]));
                assert(has_category(st, targets[q]));
                assert(has_product(st, id));
            }
        }
        assert(has_product(st2, l.0));
        assert(st2.categories == st.categories);
    }
    assert(names_sorted(t));
    assert(category_ids_unique(st2.categories));
    assert(catalog_wf(st2));
    lemma_record_of_unique(st2, id, j);
}

impl Catalog {
    pub open spec fn wf(&self) -> bool {
        catalog_wf(self@)
    }

    /// An empty catalog.
    pub fn new() -> (r: Catalog)
        ensures
            r.wf(),
            r@.products.len() == 0,
            r@.categories.len() == 0,
            r@.links.len() == 0,
    {
        Catalog { products: Vec::new(), categories: Vec::new(), links: Vec::new() }
    }

    fn find_product(&self, id: u128) -> (r: Option<usize>)
        ensures
            r matches Some(i) ==> i < self@.products.len() && self@.products[i as int].id == id,
            r is None ==> !has_product(self@, id),
    {
        let mut i: usize = 0;
        while i < self.products.len()
            invariant
                i <= self.products@.len(),
                forall|j: int| 0 <= j < i ==> #[trigger] self.products@[j].id != id,
            decreases self.products@.len() - i,
        {
            if self.products[i].id == id {
                return Some(i);
            }
            i = i + 1;
        }
        proof {
            assert forall|j: int| 0 <= j < self@.products.len() implies #[trigger] self@.products[j].id != id by {
                assert(self@.products[j] == self.products@[j]@);
            }
        }
        None
    }

    fn find_category(&self, id: u128) -> (r: Option<usize>)
        ensures
            r matches Some(i) ==> i < self@.categories.len() && self@.categories[i as int].0 == id,
            r is None ==> !has_category(self@, id),
    {
        let mut i: usize = 0;
        while i < self.categories.len()
            invariant
                i <= self.categories@.len(),
                forall|j: int| 0 <= j < i ==> #[trigger] self.categories@[j].id != id,
            decreases self.categories@.len() - i,
        {
            if self.categories[i].id == id {
                return Some(i);
            }
            i = i + 1;
        }
        proof {
            assert forall|j: int| 0 <= j < self@.categories.len() implies #[trigger] self@.categories[j].0 != id by {
                assert(self@.categories[j].0 == self.categories@[j].id);
            }
        }
        None
    }

    /// The names of the categories of product `id`.
    fn names_of(&self, id: u128) -> (r: Vec<String>)
        requires
            self.wf(),
        ensures
            texts(r@) == category_names(self@, id),
    {
        let ghost st = self@;
        let mut out: Vec<String> = Vec::new();
        let mut k: usize = 0;
        while k < self.links.len()
            invariant
                st == self@,
                catalog_wf(st),
                k <= st.links.len(),
                texts(out@) == names_along(st, links_of(st.links.take(k as int), id)),
            decreases st.links.len() - k,
        {
            let l = self.links[k];
            let ghost before = out@;
            assert(st.links.take(k + 1).drop_last() =~= st.links.take(k as int));
            assert(st.links.take(k + 1).last() == l);
            if l.0 == id {
                assert(has_category(st, l.1));
                let j = self.find_category(l.1).unwrap();
                assert(category_name(st, l.1) == st.categories[j as int].1);
                out.push(self.categories[j].name.clone());
                assert(texts(out@) =~= texts(before).push(self.categories@[j as int].name@));
                assert(names_along(st, links_of(st.links.take(k as int), id).push(l)) =~= names_along(
                    st,
                    links_of(st.links.take(k as int), id),
                ).push(category_name(st, l.1)));
            }
            k = k + 1;
        }
        assert(st.links.take(k as int) =~= st.links);
        out
    }

    fn response(&self, i: usize) -> (r: ProductResponse)
        requires
            self.wf(),
            i < self@.products.len(),
        ensures
            r@ == response_of(self@, self@.products[i as int]),
    {
        let p = &self.products[i];
        let categories = self.names_of(p.id);
        ProductResponse {
            id: p.id,
            name: p.name.clone(),
            brand: copy_text(&p.brand),
            image_url: copy_text(&p.image_url),
            categories,
            facts: p.facts,
        }
    }

    fn matches(&self, i: usize, lowered: &Option<String>, search: Ghost<Option<Seq<char>>>) -> (r: bool)
        requires
            i < self@.products.len(),
            search@ is Some <==> lowered is Some,
            lowered matches Some(q) ==> q@ == lower_of(search@->0),
        ensures
            r == matches_search(self@.products[i as int], search@),
    {
        match lowered {
            None => true,
            Some(q) => {
                let p = &self.products[i];
                let name = lowercase(p.name.as_str());
                if contains(name.as_str(), q.as_str()) {
                    true
                } else {
                    match &p.brand {
                        Some(b) => {
                            let brand = lowercase(b.as_str());
                            contains(brand.as_str(), q.as_str())
                        },
                        None => false,
                    }
                }
            },
        }
    }

    /// A page of the products whose name or brand contains the search text,
    /// ignoring case, in name order: at most `limit` of them (10 if absent)
    /// after the first `offset` (0 if absent). A negative limit or offset is
    /// refused by the store.
    pub fn get_product_list(&self, p: &Pagination) -> (r: Result<Vec<ProductResponse>, AppError>)
        requires
            self.wf(),
        ensures
            p.limit_value() < 0 || p.offset_value() < 0 ==> (r matches Err(e) && e is DatabaseError),
            p.limit_value() >= 0 && p.offset_value() >= 0 ==> (r matches Ok(v) && response_views(v@)
                == page(listing(self@, opt_text(p.search)), p.offset_value(), p.limit_value())),
    {
        let limit = p.page_limit();
        let offset = p.page_offset();
        if limit < 0 {
            return Err(AppError::DatabaseError(String::from_str("LIMIT must not be negative")));
        }
        if offset < 0 {
            return Err(AppError::DatabaseError(String::from_str("OFFSET must not be negative")));
        }
        let ghost search = opt_text(p.search);
        let lowered = match &p.search {
            Some(q) => Some(lowercase(q.as_str())),
            None => None,
        };
        let ghost st = self@;
        let mut out: Vec<ProductResponse> = Vec::new();
        let mut seen: u64 = 0;
        let first = offset as u64;
        let stop = (offset + limit) as u64;
        let mut i: usize = 0;
        while i < self.products.len()
            invariant
                st == self@,
                catalog_wf(st),
                i <= st.products.len(),
                st.products.len() == self.products@.len(),
                search is Some <==> lowered is Some,
                lowered matches Some(q) ==> q@ == lower_of(search->0),
                0 <= limit <= 0x7fff_ffff,
                0 <= offset <= 0x7fff_ffff,
                seen == matching(st.products.take(i as int), search).len(),
                seen <= i,
                first == offset,
                stop == offset + limit,
                response_views(out@) == page(
                    responses(st, matching(st.products.take(i as int), search)),
                    offset as int,
                    limit as int,
                ),
            decreases st.products.len() - i,
        {
            let ghost before = out@;
            let ghost prev = matching(st.products.take(i as int), search);
            assert(st.products.take(i + 1).drop_last() =~= st.products.take(i as int));
            assert(st.products.take(i + 1).last() == st.products[i as int]);
            if self.matches(i, &lowered, Ghost(search)) {
                assert(matching(st.products.take(i + 1), search) == prev.push(st.products[i as int]));
                assert(responses(st, prev.push(st.products[i as int])) =~= responses(st, prev).push(
                    response_of(st, st.products[i as int]),
                ));
                if first <= seen && seen < stop {
                    let item = self.response(i);
                    out.push(item);
                    assert(response_views(out@) =~= response_views(before).push(item@));
                    assert(page(responses(st, prev).push(response_of(st, st.products[i as int])), offset as int, limit as int)
                        =~= page(responses(st, prev), offset as int, limit as int).push(response_of(st, st.products[i as int])));
                } else {
                    assert(page(responses(st, prev).push(response_of(st, st.products[i as int])), offset as int, limit as int)
                        =~= page(responses(st, prev), offset as int, limit as int));
                }
                seen = seen + 1;
            }
            i = i + 1;
        }
        assert(st.products.take(i as int) =~= st.products);
        Ok(out)
    }

    /// The product with identifier `id` and the names of its categories.
    pub fn get_product_by_id(&self, id: u128) -> (r: Result<ProductResponse, AppError>)
        requires
            self.wf(),
        ensures
            has_product(self@, id) ==> (r matches Ok(v) && v@ == response_of(self@, record_of(self@, id))),
            !has_product(self@, id) ==> (r matches Err(e) && e is NotFound),
    {
        match self.find_product(id) {
            Some(i) => {
                assert(record_of(self@, id) == self@.products[i as int]);
                Ok(self.response(i))
            },
            None => Err(AppError::NotFound),
        }
    }

    fn place(&mut self, p: Product)
        requires
            names_sorted(old(self)@.products),
        ensures
            final(self)@.products == insert_sorted(old(self)@.products, p@),
            final(self)@.categories == old(self)@.categories,
            final(self)@.links == old(self)@.links,
    {
        let ghost s = self@.products;
        let mut j: usize = 0;
        while j < self.products.len() && text_le_exec(self.products[j].name.as_str(), p.name.as_str())
            invariant
                s == self@.products,
                names_sorted(s),
                j <= s.len(),
                forall|i: int| 0 <= i < j ==> text_le(#[trigger] s[i].name, p@.name),
            decreases s.len() - j,
        {
            j = j + 1;
        }
        proof {
            assert forall|i: int| j <= i < s.len() implies !text_le(#[trigger] s[i].name, p@.name) by {
                if text_le(s[i].name, p@.name) && j < i {
                    lemma_text_le_transitive(s[j as int].name, s[i].name, p@.name);
                }
            }
            assert(insertion_point(s, p@.name, j as int));
            lemma_insertion_point_unique(s, p@.name, j as int);
        }
        let ghost pv = p@;
        self.products.insert(j, p);
        assert(self@.products =~= s.insert(j as int, pv));
    }

    fn drop_links(&mut self, id: u128)
        ensures
            final(self)@.links == links_without(old(self)@.links, id),
            final(self)@.products == old(self)@.products,
            final(self)@.categories == old(self)@.categories,
    {
        let ghost old_links = self.links@;
        let mut kept: Vec<(u128, u128)> = Vec::new();
        let mut k: usize = 0;
        while k < self.links.len()
            invariant
                old_links == self.links@,
                k <= old_links.len(),
                kept@ == links_without(old_links.take(k as int), id),
            decreases old_links.len() - k,
        {
            let l = self.links[k];
            assert(old_links.take(k + 1).drop_last() =~= old_links.take(k as int));
            assert(old_links.take(k + 1).last() == l);
            if l.0 != id {
                kept.push(l);
            }
            k = k + 1;
        }
        assert(old_links.take(k as int) =~= old_links);
        self.links = kept;
    }

    fn add_links(&mut self, id: u128, targets: &Vec<u128>)
        ensures
            final(self)@.links == old(self)@.links + link_pairs(id, targets@),
            final(self)@.products == old(self)@.products,
            final(self)@.categories == old(self)@.categories,
    {
        let ghost old_links = self.links@;
        let mut k: usize = 0;
        while k < targets.len()
            invariant
                k <= targets@.len(),
                self.links@ == old_links + link_pairs(id, targets@.take(k as int)),
                self@.products == old(self)@.products,
                self@.categories == old(self)@.categories,
                old_links == old(self)@.links,
            decreases targets@.len() - k,
        {
            self.links.push((id, targets[k]));
            assert(link_pairs(id, targets@.take(k + 1)) =~= link_pairs(id, targets@.take(k as int)).push((id, targets@[k as int])));
            assert(self.links@ =~= old_links + link_pairs(id, targets@.take(k + 1)));
            k = k + 1;
        }
        assert(targets@.take(k as int) =~= targets@);
    }

    /// The categories that the texts name, if each is the UUID of a stored
    /// category.
    fn resolve_categories(&self, ids: &Vec<String>) -> (r: Option<Vec<u128>>)
        ensures
            r is Some <==> targets_ok(self@, texts(ids@)),
            r matches Some(v) ==> v@ == targets_of(texts(ids@)),
    {
        let mut out: Vec<u128> = Vec::new();
        let mut k: usize = 0;
        while k < ids.len()
            invariant
                k <= ids@.len(),
                forall|i: int| 0 <= i < k ==> (#[trigger] uuid_of(texts(ids@)[i]) matches Some(c) && has_category(self@, c)),
                out@ == targets_of(texts(ids@)).take(k as int),
            decreases ids@.len() - k,
        {
            assert(texts(ids@)[k as int] == ids@[k as int]@);
            match parse_uuid(ids[k].as_str()) {
                Some(c) => {
                    match self.find_category(c) {
                        Some(_) => {
                            out.push(c);
                            assert(out@ =~= targets_of(texts(ids@)).take(k + 1));
                        },
                        None => {
                            return None;
                        },
                    }
                },
                None => {
                    return None;
                },
            }
            k = k + 1;
        }
        assert(targets_of(texts(ids@)).take(k as int) =~= targets_of(texts(ids@)));
        Some(out)
    }

    /// Adds a category; an identifier already in use is refused, as the
    /// store's key would refuse it.
    pub fn add_category(&mut self, id: u128, name: String) -> (r: Result<(), AppError>)
        requires
            old(self).wf(),
        ensures
            final(self).wf(),
            has_category(old(self)@, id) ==> (r matches Err(e) && e is DatabaseError) && final(self)@ == old(self)@,
            !has_category(old(self)@, id) ==> r is Ok && final(self)@ == (CatalogState {
                products: old(self)@.products,
                categories: old(self)@.categories.push((id, name@)),
                links: old(self)@.links,
            }),
    {
        if self.find_category(id).is_some() {
            return Err(AppError::DatabaseError(String::from_str("duplicate key value violates unique constraint")));
        }
        let ghost st = self@;
        let ghost nm = name@;
        self.categories.push(Categories { id, name });
        assert(self@.categories =~= st.categories.push((id, nm)));
        proof {
            let st2 = self@;
            assert forall|k: int| 0 <= k < st2.links.len() implies has_product(st2, #[trigger] st2.links[k].0)
                && has_category(st2, st2.links[k].1) by {
                assert(has_product(st, st.links[k].0));
                assert(has_category(st, st.links[k].1));
                let c = choose|c: int| 0 <= c < st.categories.len() && #[trigger] st.categories[c].0 == st.links[k].1;
                assert(st2.categories[c].0 == st.links[k].1);
            }
        }
        Ok(())
    }

    /// Stores the product a form describes under identifier `id`, linked to
    /// the categories it names, all or nothing. A form without a name is
    /// invalid; an identifier already in use, or a category text that is not
    /// the UUID of a stored category, is refused by the store. Either way the
    /// catalog stays as it was. The answer is the stored product as it is read.
    pub fn insert_product(&mut self, form: ProductForm, id: u128) -> (r: Result<ProductResponse, AppError>)
        requires
            old(self).wf(),
        ensures
            final(self).wf(),
            r is Ok <==> form_valid(form) && !has_product(old(self)@, id) && targets_ok(old(self)@, texts(form.categories_ids@)),
            r matches Ok(v) ==> final(self)@ == created(old(self)@, record_from(form, id), targets_of(texts(form.categories_ids@)))
                && v@ == response_of(final(self)@, record_from(form, id)) && has_product(final(self)@, id)
                && record_of(final(self)@, id) == record_from(form, id),
            r matches Err(e) ==> final(self)@ == old(self)@ && if !form_valid(form) {
                e is ValidationError
            } else {
                e is DatabaseError
            },
    {
        validate_form(&form)?;
        if self.find_product(id).is_some() {
            return Err(AppError::DatabaseError(String::from_str("duplicate key value violates unique constraint")));
        }
        let targets = match self.resolve_categories(&form.categories_ids) {
            Some(t) => t,
            None => {
                return Err(AppError::DatabaseError(String::from_str("foreign key violation on product_category")));
            },
        };
        let ghost st = self@;
        let ghost rec = record_from(form, id);
        let ghost tg = targets_of(texts(form.categories_ids@));
        proof {
            assert forall|t: int| 0 <= t < tg.len() implies has_category(st, #[trigger] tg[t]) by {
                assert(uuid_of(texts(form.categories_ids@)[t]) matches Some(c) && has_category(st, c));
            }
        }
        let product = Product {
            id,
            name: form.name,
            brand: form.brand,
            image_url: form.image_url,
            facts: form.facts,
        };
        assert(product@ == rec);
        self.place(product);
        self.add_links(id, &targets);
        proof {
            lemma_created_wf(st, rec, tg);
            assert(self@ == created(st, rec, tg));
        }
        let r = self.get_product_by_id(id);
        r
    }

    /// Stores a new product under a fresh random identifier; see
    /// `insert_product`. The store's answer in the (vanishingly unlikely) case
    /// that the identifier is taken is a failure; in an empty store no
    /// identifier is taken, so a valid form naming stored categories succeeds.
    pub fn create_product_with_categories(&mut self, form: ProductForm) -> (r: Result<ProductResponse, AppError>)
        requires
            old(self).wf(),
        ensures
            final(self).wf(),
            r matches Ok(v) ==> form_valid(form) && targets_ok(old(self)@, texts(form.categories_ids@)) && final(self)@ == created(
                old(self)@,
                record_from(form, v.id),
                targets_of(texts(form.categories_ids@)),
            ) && v@ == response_of(final(self)@, record_from(form, v.id)) && !has_product(old(self)@, v.id)
                && has_product(final(self)@, v.id) && record_of(final(self)@, v.id) == record_from(form, v.id),
            r matches Err(e) ==> final(self)@ == old(self)@ && if !form_valid(form) {
                e is ValidationError
            } else {
                e is DatabaseError
            },
            !form_valid(form) || !targets_ok(old(self)@, texts(form.categories_ids@)) ==> r is Err,
            old(self)@.products.len() == 0 && form_valid(form) && targets_ok(old(self)@, texts(form.categories_ids@))
                ==> r is Ok,
    {
        let id = fresh_uuid();
        self.insert_product(form, id)
    }

    /// Removes product `id` and its links, and says how many products were
    /// removed.
    pub fn delete_product_by_id(&mut self, id: u128) -> (r: Result<u64, AppError>)
        requires
            old(self).wf(),
        ensures
            final(self).wf(),
            final(self)@ == deleted(old(self)@, id),
            r == Ok::<u64, AppError>(if has_product(old(self)@, id) { 1 } else { 0 }),
    {
        let ghost st = self@;
        proof {
            lemma_deleted_wf(st, id);
        }
        self.drop_links(id);
        match self.find_product(id) {
            Some(i) => {
                proof {
                    lemma_record_of_unique(st, id, i as int);
                }
                self.products.remove(i);
                assert(self@.products =~= st.products.remove(i as int));
                Ok(1)
            },
            None => Ok(0),
        }
    }

    /// Gives stored product `id` the fields of the form. A non-empty list of
    /// categories replaces its links, all or nothing; an empty one leaves
    /// them. A form without a name is invalid, and a missing product is
    /// reported as not found.
    pub fn update_product_by_id(&mut self, id: u128, form: ProductForm) -> (r: Result<ProductResponse, AppError>)
        requires
            old(self).wf(),
        ensures
            final(self).wf(),
            !form_valid(form) ==> (r matches Err(e) && e is ValidationError) && final(self)@ == old(self)@,
            form_valid(form) && !has_product(old(self)@, id) ==> (r matches Err(e) && e is NotFound) && final(self)@ == old(self)@,
            form_valid(form) && has_product(old(self)@, id) && form.categories_ids@.len() > 0 && !targets_ok(old(self)@, texts(form.categories_ids@))
                ==> (r matches Err(e) && e is DatabaseError) && final(self)@ == old(self)@,
            form_valid(form) && has_product(old(self)@, id) && (form.categories_ids@.len() == 0 || targets_ok(old(self)@, texts(form.categories_ids@)))
                ==> (r matches Ok(v) && final(self)@ == updated(old(self)@, record_from(form, id), targets_of(texts(form.categories_ids@)))
                && v@ == response_of(final(self)@, record_from(form, id)) && has_product(final(self)@, id)
                && record_of(final(self)@, id) == record_from(form, id)),
    {
        validate_form(&form)?;
        let i = match self.find_product(id) {
            Some(i) => i,
            None => {
                return Err(AppError::NotFound);
            },
        };
        let targets = if form.categories_ids.len() > 0 {
            match self.resolve_categories(&form.categories_ids) {
                Some(t) => t,
                None => {
                    return Err(AppError::DatabaseError(String::from_str("foreign key violation on product_category")));
                },
            }
        } else {
            Vec::new()
        };
        let ghost st = self@;
        let ghost rec = record_from(form, id);
        let ghost tg = targets_of(texts(form.categories_ids@));
        proof {
            lemma_record_of_unique(st, id, i as int);
            if form.categories_ids@.len() > 0 {
                assert forall|t: int| 0 <= t < tg.len() implies has_category(st, #[trigger] tg[t]) by {
                    assert(uuid_of(texts(form.categories_ids@)[t]) matches Some(c) && has_category(st, c));
                }
            } else {
                assert(targets@ =~= tg);
            }
        }
        self.products.remove(i);
        assert(self@.products =~= st.products.remove(i as int));
        proof {
            let s = st.products;
            let s1 = self@.products;
            assert forall|a: int, b: int| 0 <= a < b < s1.len() implies text_le(#[trigger] s1[a].name, #[trigger] s1[b].name) by {
                let a0 = if a < i { a } else { a + 1 };
                let b0 = if b < i { b } else { b + 1 };
                assert(s1[a] == s[a0] && s1[b] == s[b0]);
            }
        }
        let product = Product {
            id,
            name: form.name,
            brand: form.brand,
            image_url: form.image_url,
            facts: form.facts,
        };
        assert(product@ == rec);
        self.place(product);
        if targets.len() > 0 {
            self.drop_links(id);
            self.add_links(id, &targets);
        }
        proof {
            lemma_updated_wf(st, rec, tg);
            assert(self@ == updated(st, rec, tg));
        }
        self.get_product_by_id(id)
    }

    /// The product with identifier `id`, or nothing if it is not stored.
    pub fn get_product_from_id(&self, id: u128) -> (r: Result<Option<ProductResponse>, AppError>)
        requires
            self.wf(),
        ensures
            has_product(self@, id) ==> (r matches Ok(Some(v)) && v@ == response_of(self@, record_of(self@, id))),
            !has_product(self@, id) ==> r matches Ok(None),
    {
        found_or_none(self.get_product_by_id(id))
    }

    /// Updates product `id` (see `update_product_by_id`); a missing product
    /// is an empty answer.
    pub fn update_product_from_id(&mut self, id: u128, form: ProductForm) -> (r: Result<Option<ProductResponse>, AppError>)
        requires
            old(self).wf(),
        ensures
            final(self).wf(),
            !form_valid(form) ==> (r matches Err(e) && e is ValidationError) && final(self)@ == old(self)@,
            form_valid(form) && !has_product(old(self)@, id) ==> (r matches Ok(None)) && final(self)@ == old(self)@,
            form_valid(form) && has_product(old(self)@, id) && form.categories_ids@.len() > 0 && !targets_ok(old(self)@, texts(form.categories_ids@))
                ==> (r matches Err(e) && e is DatabaseError) && final(self)@ == old(self)@,
            form_valid(form) && has_product(old(self)@, id) && (form.categories_ids@.len() == 0 || targets_ok(old(self)@, texts(form.categories_ids@)))
                ==> (r matches Ok(Some(v)) && final(self)@ == updated(old(self)@, record_from(form, id), targets_of(texts(form.categories_ids@)))
                && v@ == response_of(final(self)@, record_from(form, id)) && has_product(final(self)@, id)
                && record_of(final(self)@, id) == record_from(form, id)),
    {
        found_or_none(self.update_product_by_id(id, form))
    }

    /// Deletes product `id` and its links; a product that is not stored is
    /// not found, however often it is asked for, and nothing changes.
    pub fn delete_product_from_id(&mut self, id: u128) -> (r: Result<(), AppError>)
        requires
            old(self).wf(),
        ensures
            final(self).wf(),
            final(self)@ == deleted(old(self)@, id),
            has_product(old(self)@, id) ==> r is Ok,
            !has_product(old(self)@, id) ==> (r matches Err(e) && e is NotFound) && final(self)@ == old(self)@,
    {
        proof {
            crate::laws::law_delete_missing(self@, id);
        }
        removal_outcome(self.delete_product_by_id(id))
    }
}

} // verus!

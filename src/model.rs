//! Products, categories and the shapes they are written and read in.
//!
//! Amounts (serving size, nutrients, price) are held as the bit pattern of an
//! IEEE-754 single-precision number (`f32::to_bits`): the library stores and
//! returns them, and never computes with them.

use vstd::prelude::*;

verus! {

/// The amounts and flags of a product. Each amount is an `f32` bit pattern.
#[derive(Debug, Clone, Copy, PartialEq, Eq, Structural)]
pub struct ProductFacts {
    pub serving_size_grams: Option<u32>,
    pub calories: i32,
    pub fat: u32,
    pub sugar: u32,
    pub sodium: u32,
    pub protein: u32,
    pub carbs: u32,
    pub saturated_fat: u32,
    pub cholesterol: u32,
    pub vitamin_c: Option<u32>,
    pub calcium: Option<u32>,
    pub vitamin_b1: Option<u32>,
    pub vitamin_a: Option<u32>,
    pub price: u32,
    /// Ultra-processed food.
    pub is_upf: bool,
    /// Certified as a healthier choice.
    pub is_healthier: bool,
}

/// A stored product; `id` is the UUID the store assigned, as an integer.
#[derive(Debug)]
pub struct Product {
    pub id: u128,
    pub name: String,
    pub brand: Option<String>,
    pub image_url: Option<String>,
    pub facts: ProductFacts,
}

/// What a client writes to create or update a product. The `id` is ignored:
/// the store assigns identifiers.
#[derive(Debug)]
pub struct ProductForm {
    pub id: Option<String>,
    pub name: String,
    pub brand: Option<String>,
    pub image_url: Option<String>,
    /// Identifiers of the categories to link, as UUID text.
    pub categories_ids: Vec<String>,
    pub facts: ProductFacts,
}

/// A product as it is read: its fields and the names of its categories.
#[derive(Debug)]
pub struct ProductResponse {
    pub id: u128,
    pub name: String,
    pub brand: Option<String>,
    pub image_url: Option<String>,
    pub categories: Vec<String>,
    pub facts: ProductFacts,
}

/// A named tag that classifies products.
#[derive(Debug)]
pub struct Categories {
    pub id: u128,
    pub name: String,
}

/// What a client writes to create a category.
#[derive(Debug)]
pub struct CategoriesForm {
    pub id: Option<String>,
    pub name: String,
}

/// A category with the products it classifies.
#[derive(Debug)]
pub struct CategoriesWithProductsResponse {
    pub categories: Categories,
    pub products: Vec<Product>,
}

/// The text of an optional string.
pub open spec fn opt_text(o: Option<String>) -> Option<Seq<char>> {
    match o {
        Some(s) => Some(s@),
        None => None,
    }
}

/// The texts of a list of strings.
pub open spec fn texts(v: Seq<String>) -> Seq<Seq<char>> {
    v.map_values(|c: String| c@)
}

/// A stored product as a value.
pub struct ProductRecord {
    pub id: u128,
    pub name: Seq<char>,
    pub brand: Option<Seq<char>>,
    pub image_url: Option<Seq<char>>,
    pub facts: ProductFacts,
}

/// A product as it is read, as a value.
pub struct ResponseRecord {
    pub id: u128,
    pub name: Seq<char>,
    pub brand: Option<Seq<char>>,
    pub image_url: Option<Seq<char>>,
    pub categories: Seq<Seq<char>>,
    pub facts: ProductFacts,
}

impl View for Product {
    type V = ProductRecord;

    open spec fn view(&self) -> ProductRecord {
        ProductRecord {
            id: self.id,
            name: self.name@,
            brand: opt_text(self.brand),
            image_url: opt_text(self.image_url),
            facts: self.facts,
        }
    }
}

impl View for ProductResponse {
    type V = ResponseRecord;

    open spec fn view(&self) -> ResponseRecord {
        ResponseRecord {
            id: self.id,
            name: self.name@,
            brand: opt_text(self.brand),
            image_url: opt_text(self.image_url),
            categories: texts(self.categories@),
            facts: self.facts,
        }
    }
}

/// A copy of an optional string.
pub fn copy_text(o: &Option<String>) -> (r: Option<String>)
    ensures
        opt_text(r) == opt_text(*o),
{
    match o {
        Some(s) => Some(s.clone()),
        None => None,
    }
}

} // verus!

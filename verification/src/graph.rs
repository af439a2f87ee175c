//! Build products and the dependency graph between them.

use vstd::prelude::*;

verus! {

/// A unit of work: a processor applied to input files, producing outputs.
pub struct Product {
    pub id: usize,
    /// The name of the processor that builds the product.
    pub processor: String,
    pub inputs: Vec<String>,
    pub outputs: Vec<String>,
}

impl Product {
    /// The first input, the file a checker checks.
    pub fn primary_input(&self) -> (r: &str)
        requires
            self.inputs@.len() > 0,
        ensures
            r@ == self.inputs@[0]@,
    {
        self.inputs[0].as_str()
    }
}

/// Products, and for each product (by position) the positions of the products it depends on.
pub struct BuildGraph {
    pub products: Vec<Product>,
    pub dependencies: Vec<Vec<usize>>,
}

impl BuildGraph {
    /// The graph's shape: one dependency list per product, each product's id
    /// its position, and every dependency a product of the graph.
    pub open spec fn well_formed(&self) -> bool {
        &&& self.dependencies@.len() == self.products@.len()
        &&& forall|i: int| 0 <= i < self.products@.len() ==> (#[trigger] self.products@[i]).id == i
        &&& forall|i: int, k: int|
            0 <= i < self.dependencies@.len() && 0 <= k < self.dependencies@[i]@.len() ==> (
            #[trigger] self.dependencies@[i]@[k]) < self.products@.len()
    }

    pub fn get_product(&self, id: usize) -> (r: Option<&Product>)
        ensures
            id < self.products@.len() ==> r == Some(&self.products@[id as int]),
            id >= self.products@.len() ==> r is None,
    {
        if id < self.products.len() {
            Some(&self.products[id])
        } else {
            None
        }
    }

    pub fn get_dependencies(&self, id: usize) -> (r: &[usize])
        ensures
            id < self.dependencies@.len() ==> r@ == self.dependencies@[id as int]@,
            id >= self.dependencies@.len() ==> r@.len() == 0,
    {
        if id < self.dependencies.len() {
            self.dependencies[id].as_slice()
        } else {
            &[]
        }
    }

    pub fn products(&self) -> (r: &Vec<Product>)
        ensures
            r == &self.products,
    {
        &self.products
    }
}

} // verus!

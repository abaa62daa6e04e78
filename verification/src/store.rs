//! The database side: the rows that queries read and the statements that
//! mutations write.
use vstd::prelude::*;

verus! {

/// A row of the `recipes` table.
#[derive(Debug)]
pub struct RecipeRow {
    pub id: String,
    pub title: String,
    pub description: String,
}

/// A row of the `steps` table, as selected for one recipe.
#[derive(Debug)]
pub struct StepRow {
    pub id: String,
    pub description: String,
    pub resource_id: u64,
    pub order_number: u32,
    pub duration: i32,
}

/// A row of the `resources` table.
#[derive(Debug)]
pub struct ResourceRow {
    pub id: u64,
    pub name: String,
    pub amount: i32,
}

/// One statement that a mutation writes, with the values it binds.
#[derive(Debug)]
pub enum WriteCommand {
    /// `INSERT INTO recipes (id, title, description)`
    InsertRecipe { id: String, title: String, description: String },
    /// `INSERT INTO steps (id, recipe_id, description, resource_id, order_number, duration)`
    InsertStep {
        id: String,
        recipe_id: String,
        description: String,
        resource_id: u64,
        order_number: u32,
        duration: i32,
    },
    /// `UPDATE recipes SET title, description WHERE id`
    UpdateRecipe { id: String, title: String, description: String },
    /// `UPDATE steps SET description, resource_id, order_number, duration WHERE id AND recipe_id`:
    /// only a step of the recipe `recipe_id` is touched.
    UpdateStep {
        id: String,
        recipe_id: String,
        description: String,
        resource_id: u64,
        order_number: u32,
        duration: i32,
    },
    /// `INSERT INTO resources (name, amount)`; the database assigns the id.
    InsertResource { name: String, amount: i32 },
    /// `UPDATE resources SET name, amount WHERE id`
    UpdateResource { id: u64, name: String, amount: i32 },
    /// `INSERT INTO processes (name)`; the database assigns the id.
    InsertProcess { name: String },
    /// `INSERT INTO process_regsitrations (process_id, recipe_id)`
    RegisterRecipe { process_id: u64, recipe_id: String },
}

} // verus!

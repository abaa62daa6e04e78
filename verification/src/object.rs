//! The values that the GraphQL schema hands out and takes in.
use vstd::prelude::*;

verus! {

/// A recipe without its steps.
#[derive(Debug)]
pub struct Recipe {
    pub id: String,
    pub title: String,
    pub description: String,
}

/// A recipe together with its steps. Also the input of the whole-recipe
/// update, which replaces a recipe and its steps at once.
#[derive(Debug)]
pub struct RecipeDetail {
    pub id: String,
    pub title: String,
    pub description: String,
    pub steps: Vec<Step>,
}

/// A resource (a machine, a tool, a person) that steps are scheduled on.
#[derive(Debug)]
pub struct Resource {
    pub id: u64,
    pub name: String,
    pub amount: i32,
}

/// A greeting.
#[derive(Debug)]
pub struct HelloResponse {
    pub message: String,
}

/// A scheduled process: for each resource in use, the steps placed on it.
#[derive(Debug)]
pub struct Process {
    pub resource_infos: Vec<ResourceInfo>,
}

/// One resource of a scheduled process and the steps placed on it.
#[derive(Debug)]
pub struct ResourceInfo {
    pub id: u64,
    pub name: String,
    pub steps: Vec<StepResult>,
}

/// A step as the scheduler placed it.
#[derive(Debug, Clone)]
pub struct StepResult {
    pub id: String,
    pub recipe_id: String,
    pub resource_id: u64,
    pub start_time: i32,
    pub duration: i32,
    pub order_number: u32,
    pub timeline_index: i32,
    pub description: String,
    pub recipe_name: String,
}

impl RecipeDetail {
    /// Assembles a recipe detail from its parts.
    pub fn new(id: String, title: String, description: String, steps: Vec<Step>) -> (detail: Self)
        ensures
            detail.id == id,
            detail.title == title,
            detail.description == description,
            detail.steps == steps,
    {
        RecipeDetail { id, title, description, steps }
    }
}

/// One step of a recipe.
#[derive(Debug)]
pub struct Step {
    pub id: String,
    pub description: String,
    pub resource_id: u64,
    pub order_number: u32,
    pub duration: i32,
}

/// Input of the recipe creation.
pub struct CreateRecipeDetailInput {
    pub title: String,
    pub description: String,
    pub steps: Vec<CreateStepInput>,
}

/// Input for one step of a recipe being created.
pub struct CreateStepInput {
    pub description: String,
    pub resource_id: u64,
    pub order_number: u32,
    pub duration: i32,
}

/// Input of the resource creation.
pub struct CreateResourceInput {
    pub name: String,
    pub amount: i32,
}

/// Input of the resource update.
pub struct UpdateResourceInput {
    pub id: u64,
    pub name: String,
    pub amount: i32,
}

/// Input of the process creation: the recipes that make up the process.
pub struct CreateProcessInput {
    pub recipe_id_list: Vec<String>,
}

/// The key of a newly created process.
#[derive(Debug)]
pub struct ProcessId {
    pub id: u64,
}

} // verus!

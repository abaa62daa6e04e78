use cpp_backend::query::{
    recipe_detail_from_rows, recipe_from_row, recipes_from_rows, resource_from_row,
    resources_from_rows, step_from_row, steps_from_rows,
};
use cpp_backend::store::{RecipeRow, ResourceRow, StepRow};

fn recipe_row(id: &str, title: &str) -> RecipeRow {
    RecipeRow { id: id.to_string(), title: title.to_string(), description: format!("{} text", title) }
}

fn step_row(id: &str, resource_id: u64, order_number: u32) -> StepRow {
    StepRow { id: id.to_string(), description: format!("do {}", id), resource_id, order_number, duration: 7 }
}

#[test]
fn single_rows_convert_field_by_field() {
    let r = recipe_from_row(&recipe_row("r1", "Soup"));
    assert_eq!((r.id.as_str(), r.title.as_str(), r.description.as_str()), ("r1", "Soup", "Soup text"));
    let s = step_from_row(&step_row("s1", 3, 2));
    assert_eq!((s.id.as_str(), s.description.as_str(), s.resource_id, s.order_number, s.duration), ("s1", "do s1", 3, 2, 7));
    let res = resource_from_row(&ResourceRow { id: 8, name: "Knife".to_string(), amount: 4 });
    assert_eq!((res.id, res.name.as_str(), res.amount), (8, "Knife", 4));
}

#[test]
fn row_lists_keep_their_order() {
    let recipes = recipes_from_rows(&vec![recipe_row("b", "B"), recipe_row("a", "A")]);
    assert_eq!(recipes.len(), 2);
    assert_eq!(recipes[0].id, "b");
    assert_eq!(recipes[1].title, "A");
    let steps = steps_from_rows(&vec![step_row("x", 1, 2), step_row("y", 2, 1)]);
    assert_eq!(steps[0].id, "x");
    assert_eq!(steps[1].order_number, 1);
    let resources = resources_from_rows(&vec![
        ResourceRow { id: 2, name: "P".to_string(), amount: 1 },
        ResourceRow { id: 1, name: "Q".to_string(), amount: 3 },
    ]);
    assert_eq!((resources[0].id, resources[1].id, resources[1].amount), (2, 1, 3));
    assert!(recipes_from_rows(&vec![]).is_empty());
}

#[test]
fn recipe_detail_from_its_rows() {
    let steps = vec![step_row("s1", 1, 1), step_row("s2", 2, 2)];
    let d = recipe_detail_from_rows(recipe_row("r", "Pie"), &steps);
    assert_eq!(d.id, "r");
    assert_eq!(d.title, "Pie");
    assert_eq!(d.description, "Pie text");
    assert_eq!(d.steps.len(), 2);
    assert_eq!(d.steps[1].id, "s2");
    assert_eq!(d.steps[1].resource_id, 2);
    let empty = recipe_detail_from_rows(recipe_row("e", "E"), &vec![]);
    assert!(empty.steps.is_empty());
}

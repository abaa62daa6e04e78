use cpp_backend::object::{RecipeDetail, Resource, Step};
use cpp_backend::schedule::{
    build_process_request, collect_used_resource_ids, process_from_response, request_recipe,
    step_result_from_output, used_resources, ProcessResponse, ResourceInfoOutput, StepOutput,
};

fn step(id: &str, description: &str, resource_id: u64, order_number: u32, duration: i32) -> Step {
    Step { id: id.to_string(), description: description.to_string(), resource_id, order_number, duration }
}

fn details() -> Vec<RecipeDetail> {
    vec![
        RecipeDetail::new(
            "r1".to_string(),
            "Curry".to_string(),
            "".to_string(),
            vec![step("s1", "Chop", 10, 1, 5), step("s2", "Boil", 20, 2, 30)],
        ),
        RecipeDetail::new(
            "r2".to_string(),
            "Rice".to_string(),
            "".to_string(),
            vec![step("s3", "Wash", 10, 1, 3)],
        ),
    ]
}

fn resources() -> Vec<Resource> {
    vec![
        Resource { id: 30, name: "Grill".to_string(), amount: 1 },
        Resource { id: 20, name: "Stove".to_string(), amount: 2 },
        Resource { id: 10, name: "Board".to_string(), amount: 3 },
    ]
}

fn output(step_id: &str, recipe_id: &str, resource_id: u64, start_time: i32) -> StepOutput {
    StepOutput {
        step_id: step_id.to_string(),
        recipe_id: recipe_id.to_string(),
        resource_id,
        start_time,
        duration: 4,
        time_line_index: 2,
    }
}

#[test]
fn request_recipe_tags_each_step_with_its_recipe() {
    let d = &details()[0];
    let r = request_recipe(d);
    assert_eq!(r.id, "r1");
    assert_eq!(r.steps.len(), 2);
    assert_eq!(r.steps[1].id, "s2");
    assert_eq!(r.steps[1].recipe_id, "r1");
    assert_eq!((r.steps[1].resource_id, r.steps[1].duration, r.steps[1].order_number), (20, 30, 2));
}

#[test]
fn used_ids_are_those_of_the_steps() {
    let ids = collect_used_resource_ids(&details());
    assert_eq!(ids.len(), 2);
    assert!(ids.contains(&10));
    assert!(ids.contains(&20));
    assert!(!ids.contains(&30));
    assert!(collect_used_resource_ids(&vec![]).is_empty());
}

#[test]
fn only_used_resources_are_sent_in_their_order() {
    let ids = collect_used_resource_ids(&details());
    let sent = used_resources(&resources(), &ids);
    assert_eq!(sent.len(), 2);
    assert_eq!((sent[0].id, sent[0].amount), (20, 2));
    assert_eq!((sent[1].id, sent[1].amount), (10, 3));
}

#[test]
fn process_request_holds_recipes_and_used_resources() {
    let req = build_process_request(&details(), &resources());
    assert_eq!(req.recipes.len(), 2);
    assert_eq!(req.recipes[1].id, "r2");
    assert_eq!(req.recipes[1].steps[0].recipe_id, "r2");
    assert_eq!(req.resources.len(), 2);
    assert_eq!(req.resources[0].id, 20);
}

#[test]
fn step_result_looks_up_names() {
    let r = step_result_from_output(&details(), &output("s2", "r1", 20, 15));
    assert_eq!(r.id, "s2");
    assert_eq!(r.recipe_id, "r1");
    assert_eq!((r.resource_id, r.start_time, r.duration, r.timeline_index), (20, 15, 4, 2));
    assert_eq!(r.order_number, 0);
    assert_eq!(r.description, "Boil");
    assert_eq!(r.recipe_name, "Curry");

    let unknown_step = step_result_from_output(&details(), &output("zz", "r2", 10, 0));
    assert_eq!(unknown_step.description, "");
    assert_eq!(unknown_step.recipe_name, "Rice");

    let unknown_recipe = step_result_from_output(&details(), &output("s1", "nope", 10, 0));
    assert_eq!(unknown_recipe.description, "");
    assert_eq!(unknown_recipe.recipe_name, "");
}

#[test]
fn process_groups_steps_by_resource() {
    let response = ProcessResponse {
        steps: vec![
            output("s1", "r1", 10, 0),
            output("s3", "r2", 10, 5),
            output("s2", "r1", 20, 5),
        ],
        resource_infos: vec![
            ResourceInfoOutput { id: 10, is_used_multiple_resources: true, used_resources_count: 2 },
            ResourceInfoOutput { id: 20, is_used_multiple_resources: false, used_resources_count: 1 },
            ResourceInfoOutput { id: 99, is_used_multiple_resources: false, used_resources_count: 0 },
        ],
    };
    let p = process_from_response(&details(), &resources(), &response);
    assert_eq!(p.resource_infos.len(), 3);
    let board = &p.resource_infos[0];
    assert_eq!((board.id, board.name.as_str()), (10, "Board"));
    assert_eq!(board.steps.len(), 2);
    assert_eq!(board.steps[0].id, "s1");
    assert_eq!(board.steps[0].description, "Chop");
    assert_eq!(board.steps[1].id, "s3");
    assert_eq!(board.steps[1].recipe_name, "Rice");
    let stove = &p.resource_infos[1];
    assert_eq!((stove.id, stove.name.as_str(), stove.steps.len()), (20, "Stove", 1));
    assert_eq!(stove.steps[0].start_time, 5);
    let missing = &p.resource_infos[2];
    assert_eq!((missing.id, missing.name.as_str(), missing.steps.len()), (99, "", 0));
    for info in &p.resource_infos {
        for s in &info.steps {
            assert_eq!(s.resource_id, info.id);
        }
    }
}

#[test]
fn negative_resource_ids_wrap_like_a_cast() {
    let response = ProcessResponse {
        steps: vec![],
        resource_infos: vec![ResourceInfoOutput { id: -1, is_used_multiple_resources: false, used_resources_count: 0 }],
    };
    let p = process_from_response(&details(), &resources(), &response);
    assert_eq!(p.resource_infos[0].id, u64::MAX);
}

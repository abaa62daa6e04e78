use cpp_backend::ids::{id_from_random_bytes, new_id, new_ids};
use cpp_backend::mutation::{
    create_recipe_detail, created_resource, insert_commands, insert_process_command,
    insert_resource_command, recipe_detail_from_input, registration_commands, update_commands,
    update_recipe_detail, update_resource,
};
use cpp_backend::object::{
    CreateProcessInput, CreateRecipeDetailInput, CreateResourceInput, CreateStepInput, RecipeDetail,
    Step, UpdateResourceInput,
};
use cpp_backend::query::recipe_detail_from_rows;
use cpp_backend::store::{RecipeRow, StepRow, WriteCommand};

fn is_uuid_v4_text(s: &str) -> bool {
    let c: Vec<char> = s.chars().collect();
    if c.len() != 36 {
        return false;
    }
    for (i, ch) in c.iter().enumerate() {
        if i == 8 || i == 13 || i == 18 || i == 23 {
            if *ch != '-' {
                return false;
            }
        } else if !(ch.is_ascii_digit() || ('a'..='f').contains(ch)) {
            return false;
        }
    }
    c[14] == '4' && ['8', '9', 'a', 'b'].contains(&c[19])
}

fn sample_input() -> CreateRecipeDetailInput {
    CreateRecipeDetailInput {
        title: "Curry".to_string(),
        description: "Spicy".to_string(),
        steps: vec![
            CreateStepInput { description: "Chop".to_string(), resource_id: 3, order_number: 1, duration: 10 },
            CreateStepInput { description: "Boil".to_string(), resource_id: 7, order_number: 2, duration: 25 },
        ],
    }
}

fn step(id: &str, description: &str, resource_id: u64, order_number: u32, duration: i32) -> Step {
    Step { id: id.to_string(), description: description.to_string(), resource_id, order_number, duration }
}

#[test]
fn recipe_detail_new_keeps_its_parts() {
    let d = RecipeDetail::new(
        "r1".to_string(),
        "Soup".to_string(),
        "Warm".to_string(),
        vec![step("s1", "Heat", 2, 1, 5)],
    );
    assert_eq!(d.id, "r1");
    assert_eq!(d.title, "Soup");
    assert_eq!(d.description, "Warm");
    assert_eq!(d.steps.len(), 1);
    assert_eq!(d.steps[0].id, "s1");
}

#[test]
fn fresh_ids_are_uuid_v4_text_and_differ() {
    let ids = new_ids(5).unwrap();
    assert_eq!(ids.len(), 5);
    for id in &ids {
        assert!(is_uuid_v4_text(id), "{}", id);
    }
    for i in 0..ids.len() {
        for j in (i + 1)..ids.len() {
            assert_ne!(ids[i], ids[j]);
        }
    }
    assert!(new_ids(0).unwrap().is_empty());
    assert!(is_uuid_v4_text(&new_id().unwrap()));
}

#[test]
fn detail_from_input_takes_the_given_ids_in_order() {
    let d = recipe_detail_from_input(
        "rid".to_string(),
        vec!["a".to_string(), "b".to_string()],
        sample_input(),
    );
    assert_eq!(d.id, "rid");
    assert_eq!(d.title, "Curry");
    assert_eq!(d.description, "Spicy");
    assert_eq!(d.steps.len(), 2);
    assert_eq!(d.steps[0].id, "a");
    assert_eq!(d.steps[0].description, "Chop");
    assert_eq!(d.steps[0].resource_id, 3);
    assert_eq!(d.steps[0].order_number, 1);
    assert_eq!(d.steps[0].duration, 10);
    assert_eq!(d.steps[1].id, "b");
    assert_eq!(d.steps[1].description, "Boil");
    assert_eq!(d.steps[1].resource_id, 7);
    assert_eq!(d.steps[1].order_number, 2);
    assert_eq!(d.steps[1].duration, 25);
}

#[test]
fn create_recipe_detail_draws_fresh_ids_and_plans_inserts() {
    let (d, cmds) = create_recipe_detail(sample_input()).unwrap();
    assert!(is_uuid_v4_text(&d.id));
    assert_eq!(d.title, "Curry");
    assert_eq!(d.description, "Spicy");
    assert_eq!(d.steps.len(), 2);
    assert!(is_uuid_v4_text(&d.steps[0].id));
    assert!(is_uuid_v4_text(&d.steps[1].id));
    assert_ne!(d.steps[0].id, d.steps[1].id);
    assert_ne!(d.id, d.steps[0].id);
    assert_eq!(d.steps[1].description, "Boil");
    assert_eq!(cmds.len(), 3);
    match &cmds[0] {
        WriteCommand::InsertRecipe { id, title, description } => {
            assert_eq!(id, &d.id);
            assert_eq!(title, "Curry");
            assert_eq!(description, "Spicy");
        }
        other => panic!("unexpected {:?}", other),
    }
    for (k, cmd) in cmds[1..].iter().enumerate() {
        match cmd {
            WriteCommand::InsertStep { id, recipe_id, description, resource_id, order_number, duration } => {
                assert_eq!(id, &d.steps[k].id);
                assert_eq!(recipe_id, &d.id);
                assert_eq!(description, &d.steps[k].description);
                assert_eq!(*resource_id, d.steps[k].resource_id);
                assert_eq!(*order_number, d.steps[k].order_number);
                assert_eq!(*duration, d.steps[k].duration);
            }
            other => panic!("unexpected {:?}", other),
        }
    }
}

#[test]
fn create_recipe_detail_without_steps() {
    let input = CreateRecipeDetailInput { title: "T".to_string(), description: String::new(), steps: vec![] };
    let (d, cmds) = create_recipe_detail(input).unwrap();
    assert!(d.steps.is_empty());
    assert_eq!(cmds.len(), 1);
    assert!(matches!(&cmds[0], WriteCommand::InsertRecipe { .. }));
}

#[test]
fn insert_commands_for_a_given_detail() {
    let d = RecipeDetail::new("r".to_string(), "t".to_string(), "d".to_string(), vec![step("s", "x", 4, 9, -2)]);
    let cmds = insert_commands(&d);
    assert_eq!(cmds.len(), 2);
    match &cmds[1] {
        WriteCommand::InsertStep { id, recipe_id, description, resource_id, order_number, duration } => {
            assert_eq!(id, "s");
            assert_eq!(recipe_id, "r");
            assert_eq!(description, "x");
            assert_eq!((*resource_id, *order_number, *duration), (4, 9, -2));
        }
        other => panic!("unexpected {:?}", other),
    }
}

#[test]
fn update_recipe_detail_returns_input_and_plans_updates() {
    let d = RecipeDetail::new(
        "r9".to_string(),
        "New title".to_string(),
        "New text".to_string(),
        vec![step("s1", "one", 1, 1, 3), step("s2", "two", 2, 2, 4)],
    );
    let (back, cmds) = update_recipe_detail(d);
    assert_eq!(back.id, "r9");
    assert_eq!(back.title, "New title");
    assert_eq!(back.description, "New text");
    assert_eq!(back.steps.len(), 2);
    assert_eq!(back.steps[1].id, "s2");
    assert_eq!(cmds.len(), 3);
    match &cmds[0] {
        WriteCommand::UpdateRecipe { id, title, description } => {
            assert_eq!((id.as_str(), title.as_str(), description.as_str()), ("r9", "New title", "New text"));
        }
        other => panic!("unexpected {:?}", other),
    }
    match &cmds[2] {
        WriteCommand::UpdateStep { id, recipe_id, description, resource_id, order_number, duration } => {
            assert_eq!((id.as_str(), recipe_id.as_str(), description.as_str()), ("s2", "r9", "two"));
            assert_eq!((*resource_id, *order_number, *duration), (2, 2, 4));
        }
        other => panic!("unexpected {:?}", other),
    }
    let again = update_commands(&back);
    assert_eq!(again.len(), 3);
}

#[test]
fn resource_creation_and_update() {
    let input = CreateResourceInput { name: "Oven".to_string(), amount: 2 };
    match insert_resource_command(&input) {
        WriteCommand::InsertResource { name, amount } => {
            assert_eq!(name, "Oven");
            assert_eq!(amount, 2);
        }
        other => panic!("unexpected {:?}", other),
    }
    let r = created_resource(input, 41);
    assert_eq!((r.id, r.name.as_str(), r.amount), (41, "Oven", 2));

    let (cmd, r) = update_resource(UpdateResourceInput { id: 5, name: "Pot".to_string(), amount: -1 });
    match cmd {
        WriteCommand::UpdateResource { id, name, amount } => {
            assert_eq!((id, name.as_str(), amount), (5, "Pot", -1));
        }
        other => panic!("unexpected {:?}", other),
    }
    assert_eq!((r.id, r.name.as_str(), r.amount), (5, "Pot", -1));
}

#[test]
fn process_creation_plans() {
    match insert_process_command() {
        WriteCommand::InsertProcess { name } => assert_eq!(name, "process"),
        other => panic!("unexpected {:?}", other),
    }
    let input = CreateProcessInput { recipe_id_list: vec!["a".to_string(), "b".to_string()] };
    let cmds = registration_commands(12, &input);
    assert_eq!(cmds.len(), 2);
    for (k, cmd) in cmds.iter().enumerate() {
        match cmd {
            WriteCommand::RegisterRecipe { process_id, recipe_id } => {
                assert_eq!(*process_id, 12);
                assert_eq!(recipe_id, &input.recipe_id_list[k]);
            }
            other => panic!("unexpected {:?}", other),
        }
    }
    assert!(registration_commands(1, &CreateProcessInput { recipe_id_list: vec![] }).is_empty());
}

#[test]
fn stored_recipe_reads_back_as_created() {
    let (d, cmds) = create_recipe_detail(sample_input()).unwrap();
    let row = match &cmds[0] {
        WriteCommand::InsertRecipe { id, title, description } => {
            RecipeRow { id: id.clone(), title: title.clone(), description: description.clone() }
        }
        other => panic!("unexpected {:?}", other),
    };
    let mut step_rows = Vec::new();
    for cmd in &cmds[1..] {
        match cmd {
            WriteCommand::InsertStep { id, recipe_id, description, resource_id, order_number, duration } => {
                assert_eq!(recipe_id, &row.id);
                step_rows.push(StepRow {
                    id: id.clone(),
                    description: description.clone(),
                    resource_id: *resource_id,
                    order_number: *order_number,
                    duration: *duration,
                });
            }
            other => panic!("unexpected {:?}", other),
        }
    }
    let read = recipe_detail_from_rows(row, &step_rows);
    assert_eq!(read.id, d.id);
    assert_eq!(read.title, d.title);
    assert_eq!(read.description, d.description);
    assert_eq!(read.steps.len(), d.steps.len());
    for (a, b) in read.steps.iter().zip(d.steps.iter()) {
        assert_eq!(a.id, b.id);
        assert_eq!(a.description, b.description);
        assert_eq!((a.resource_id, a.order_number, a.duration), (b.resource_id, b.order_number, b.duration));
    }
}

#[test]
fn ids_from_fixed_bytes() {
    assert_eq!(id_from_random_bytes([0u8; 16]), "00000000-0000-4000-8000-000000000000");
    assert_eq!(id_from_random_bytes([0xffu8; 16]), "ffffffff-ffff-4fff-bfff-ffffffffffff");
    let bytes: [u8; 16] = [
        0x01, 0x23, 0x45, 0x67, 0x89, 0xab, 0xcd, 0xef, 0x01, 0x23, 0x45, 0x67, 0x89, 0xab, 0xcd, 0xef,
    ];
    assert_eq!(id_from_random_bytes(bytes), "01234567-89ab-4def-8123-456789abcdef");
}

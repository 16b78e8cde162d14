use corvus::shared::position_store::{save, StoreStep};
use std::collections::HashMap;

fn apply(files: &mut HashMap<String, String>, step: &StoreStep) {
    match step {
        StoreStep::MakeParent { .. } => {}
        StoreStep::Write { to, text } => {
            files.insert(to.clone(), text.clone());
        }
        StoreStep::Rename { from, to } => {
            let text = files.remove(from).unwrap();
            files.insert(to.clone(), text);
        }
    }
}

#[test]
fn a_file_is_replaced_as_a_whole() {
    let steps = save("data/positions.json", String::from("[1]"));
    let mut files = HashMap::new();
    files.insert(String::from("data/positions.json"), String::from("[0]"));
    assert_eq!(steps.len(), 3);
    assert!(matches!(&steps[0], StoreStep::MakeParent { of } if of == "data/positions.json"));
    assert!(matches!(&steps[1], StoreStep::Write { to, .. } if to == "data/positions.json.tmp"));
    for step in &steps[..2] {
        apply(&mut files, step);
        assert_eq!(files["data/positions.json"], "[0]");
    }
    apply(&mut files, &steps[2]);
    assert_eq!(files["data/positions.json"], "[1]");
    assert_eq!(files.len(), 1);
}

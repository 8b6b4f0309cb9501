use tableau::records::{merge_splashes, merge_unique, Hitpoints};

fn strings(items: &[&str]) -> Vec<String> {
    items.iter().map(|s| s.to_string()).collect()
}

fn pairs(items: &[(&str, &str)]) -> Vec<(String, String)> {
    items.iter().map(|(a, b)| (a.to_string(), b.to_string())).collect()
}

#[test]
fn merge_unique_keeps_each_name_once() {
    let merged = merge_unique(&strings(&["a.png", "b.png", "a.png"]), &strings(&["b.png", "c.png"]));
    assert_eq!(merged, strings(&["a.png", "b.png", "c.png"]));
}

#[test]
fn merge_unique_of_nothing_is_empty() {
    assert!(merge_unique(&vec![], &vec![]).is_empty());
    assert_eq!(merge_unique(&vec![], &strings(&["x", "x"])), strings(&["x"]));
}

#[test]
fn merge_splashes_adds_new_images_as_neutral() {
    let existing = pairs(&[("x.png", "evil"), ("x.png", "evil"), ("y.png", "neutral")]);
    let merged = merge_splashes(&existing, &strings(&["x.png", "y.png", "z.png"]));
    assert_eq!(
        merged,
        pairs(&[("x.png", "evil"), ("y.png", "neutral"), ("x.png", "neutral"), ("z.png", "neutral")])
    );
}

#[test]
fn hitpoints_compare_by_fields() {
    let a = Hitpoints { current: 3, max: 10 };
    assert_eq!(a, Hitpoints { current: 3, max: 10 });
    assert_ne!(a, Hitpoints { current: 4, max: 10 });
}

#[test]
fn allegiance_toggles_between_neutral_and_evil() {
    assert_eq!(tableau::records::toggle_allegiance("neutral"), "evil");
    assert_eq!(tableau::records::toggle_allegiance("evil"), "neutral");
    assert_eq!(tableau::records::toggle_allegiance("good"), "good");
    assert_eq!(tableau::records::toggle_allegiance(""), "");
}

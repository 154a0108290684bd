use ui0::registry::is_component_file;
use ui0::{get_component, Component};

const COMPONENTS: &[(&str, &str)] = &[
    ("Button.jsx", "export default function Button() {}"),
    ("Card.jsx", "export default function Card() {}"),
    ("Button.jsx", "a second button"),
    ("Twice.jsx.jsx", "twice"),
    ("plain", "no extension"),
];

#[test]
fn component_new_keeps_both_parts() {
    let c = Component::new("Button", "source");
    assert_eq!(c.name, "Button");
    assert_eq!(c.source, "source");
}

#[test]
fn lookup_finds_a_component_by_its_name() {
    let c = get_component(COMPONENTS, "Card").unwrap();
    assert_eq!(c.name, "Card");
    assert_eq!(c.source, "export default function Card() {}");
}

#[test]
fn lookup_returns_the_first_of_two() {
    let c = get_component(COMPONENTS, "Button").unwrap();
    assert_eq!(c.source, "export default function Button() {}");
}

#[test]
fn lookup_is_case_sensitive() {
    assert_eq!(get_component(COMPONENTS, "button"), None);
    assert_eq!(get_component(COMPONENTS, "CARD"), None);
}

#[test]
fn lookup_goes_by_the_name_without_extension() {
    assert_eq!(get_component(COMPONENTS, "Button.jsx"), None);
    assert_eq!(get_component(COMPONENTS, "Missing"), None);
}

#[test]
fn lookup_takes_one_extension_off() {
    let c = get_component(COMPONENTS, "Twice.jsx").unwrap();
    assert_eq!(c.name, "Twice.jsx");
    assert_eq!(c.source, "twice");
    assert_eq!(get_component(COMPONENTS, "Twice"), None);
    assert_eq!(get_component(COMPONENTS, "Twice.jsx.jsx"), None);
}

#[test]
fn lookup_finds_a_file_without_extension_by_its_whole_name() {
    let c = get_component(COMPONENTS, "plain").unwrap();
    assert_eq!(c.source, "no extension");
}

#[test]
fn lookup_in_an_empty_registry_finds_nothing() {
    assert_eq!(get_component(&[], "Button"), None);
}

#[test]
fn component_files_end_in_the_extension() {
    assert!(is_component_file("Button.jsx"));
    assert!(is_component_file(".jsx"));
    assert!(!is_component_file("Button.js"));
    assert!(!is_component_file("Button.jsx.bak"));
    assert!(!is_component_file("Button.JSX"));
    assert!(!is_component_file("jsx"));
    assert!(!is_component_file(""));
}

fn names_up_to(length: usize, alphabet: &[char]) -> Vec<String> {
    let mut all = vec![String::new()];
    let mut last = vec![String::new()];
    for _ in 0..length {
        let mut next = Vec::new();
        for name in &last {
            for c in alphabet {
                let mut longer = name.clone();
                longer.push(*c);
                next.push(longer);
            }
        }
        all.extend(next.iter().cloned());
        last = next;
    }
    all
}

#[test]
fn every_short_file_name_is_found_by_its_stem() {
    for file_name in names_up_to(8, &['.', 'j', 's', 'x']) {
        let stem = file_name.strip_suffix(".jsx").unwrap_or(&file_name).to_string();
        let file_name: &'static str = String::leak(file_name);
        let registry = [(file_name, "source")];
        let found = get_component(&registry, &stem).unwrap();
        assert_eq!(found.name, stem);
        assert_eq!(found.source, "source");
        assert_eq!(is_component_file(file_name), file_name.ends_with(".jsx"));
        if stem != file_name {
            assert_eq!(get_component(&registry, file_name), None);
        }
    }
}

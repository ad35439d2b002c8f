use dev_header::config::Config;
use dev_header::header::build_header;
use dev_header::template::{edge_of, is_edge_input, Alignment, Border, Field, Template};

fn field(key: &str, value: &str) -> Field {
    Field {
        key: key.to_string(),
        default_value: value.to_string(),
        align: Alignment::Left,
        key_visible: true,
    }
}

fn config() -> Config {
    Config { max_header_len: 255, max_title_len: 40, header_len: 75, space_height: 3 }
}

#[test]
fn alignment_from_the_answer_to_centre() {
    assert_eq!(Alignment::from_center(true), Alignment::Center);
    assert_eq!(Alignment::from_center(false), Alignment::Left);
}

#[test]
fn edge_input_is_empty_or_one_character() {
    assert!(is_edge_input(""));
    assert!(is_edge_input("#"));
    assert!(is_edge_input("║"));
    assert!(is_edge_input(" "));
    assert!(!is_edge_input("##"));
    assert!(!is_edge_input("a b"));
}

#[test]
fn edge_of_input_is_its_first_character() {
    assert_eq!(edge_of(""), None);
    assert_eq!(edge_of("#"), Some('#'));
    assert_eq!(edge_of("║"), Some('║'));
    assert_eq!(edge_of("xyz"), Some('x'));
}

#[test]
fn border_is_made_from_any_edge() {
    assert_eq!(Border::from_edges(None, None, None, None), None);
    assert_eq!(
        Border::from_edges(Some('|'), None, None, None),
        Some(Border { left: Some('|'), top: None, right: None, bottom: None })
    );
    assert_eq!(
        Border::from_edges(None, Some('-'), None, Some('_')),
        Some(Border { left: None, top: Some('-'), right: None, bottom: Some('_') })
    );
    assert_eq!(
        Border::from_edges(None, None, Some('|'), None),
        Some(Border { left: None, top: None, right: Some('|'), bottom: None })
    );
    assert_eq!(
        Border::from_edges(Some('a'), Some('b'), Some('c'), Some('d')),
        Some(Border { left: Some('a'), top: Some('b'), right: Some('c'), bottom: Some('d') })
    );
}

#[test]
fn bottom_edge_alone_makes_a_border() {
    assert_eq!(
        Border::from_edges(None, None, None, Some('_')),
        Some(Border { left: None, top: None, right: None, bottom: Some('_') })
    );
}

#[test]
fn rules_have_no_sides() {
    assert_eq!(
        Border::rules('*'),
        Border { left: None, top: Some('*'), right: None, bottom: Some('*') }
    );
}

#[test]
fn new_template_without_border_and_fields_gets_rules() {
    let t = Template::new("empty".to_string(), 10, 1, 2, None, Vec::new());
    assert_eq!(t.name, "empty");
    assert!(!t.default);
    assert_eq!(t.length, 10);
    assert_eq!(t.space_before, 1);
    assert_eq!(t.space_after, 2);
    assert!(t.fields.is_empty());
    assert_eq!(t.border, Some(Border { left: None, top: Some('#'), right: None, bottom: Some('#') }));
    let header = build_header(&t).unwrap();
    assert_eq!(
        header,
        "/*########\n        \n        \n        \n########*/"
    );
}

#[test]
fn new_template_keeps_what_it_is_given() {
    let fields = vec![field("a", "1")];
    let t = Template::new("t".to_string(), 30, 0, 0, None, fields.clone());
    assert_eq!(t.border, None);
    assert_eq!(t.fields, fields);
    let border = Border { left: Some('|'), top: None, right: None, bottom: None };
    let u = Template::new("u".to_string(), 30, 0, 0, Some(border), Vec::new());
    assert_eq!(u.border, Some(border));
}

#[test]
fn values_replace_the_content_of_the_first_fields() {
    let mut t = Template::new(
        "t".to_string(),
        30,
        0,
        0,
        None,
        vec![field("a", "1"), field("b", "2"), field("c", "3")],
    );
    t.apply_values(&vec!["x".to_string(), "y".to_string()]);
    assert_eq!(t.fields, vec![field("a", "x"), field("b", "y"), field("c", "3")]);
    assert_eq!(t.name, "t");
    assert_eq!(t.length, 30);
}

#[test]
fn values_beyond_the_fields_are_left_out() {
    let mut t = Template::new("t".to_string(), 30, 0, 0, None, vec![field("a", "1")]);
    t.apply_values(&vec!["x".to_string(), "y".to_string(), "z".to_string()]);
    assert_eq!(t.fields, vec![field("a", "x")]);
    t.apply_values(&Vec::new());
    assert_eq!(t.fields, vec![field("a", "x")]);
}

#[test]
fn config_accepts_lengths_up_to_the_header_length() {
    let c = config();
    assert!(!c.accepts_length(0));
    assert!(!c.accepts_length(1));
    assert!(c.accepts_length(2));
    assert!(c.accepts_length(75));
    assert!(!c.accepts_length(76));
}

#[test]
fn config_accepts_spaces_up_to_the_space_height() {
    let c = config();
    assert!(c.accepts_space(0));
    assert!(c.accepts_space(3));
    assert!(!c.accepts_space(4));
}

#[test]
fn template_constants() {
    assert_eq!(Template::DEFAULT_HEADER_LEN, 75);
    assert_eq!(Template::MAX_HEADER_LEN, 255);
    assert_eq!(Template::SPACE_HEIGHT, 0);
}

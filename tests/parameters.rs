use kanter_editor::parameters::{menu_value, parameter_update, NodeParameter};

fn path(p: &NodeParameter) -> String {
    match p {
        NodeParameter::Image(s) => s.clone(),
        _ => panic!("not an image parameter"),
    }
}

#[test]
fn blank_image_menu_offers_default_path() {
    let shown = menu_value(&NodeParameter::Image(String::new()));
    assert_eq!(path(&shown), "data/image_2.png");
    let shown = menu_value(&NodeParameter::Image("a.png".to_string()));
    assert_eq!(path(&shown), "a.png");
}

#[test]
fn mix_menu_shows_model_operator() {
    assert!(matches!(menu_value(&NodeParameter::Mix(2)), NodeParameter::Mix(2)));
    assert!(matches!(menu_value(&NodeParameter::Fixed), NodeParameter::Fixed));
}

#[test]
fn differing_mix_operator_is_pushed() {
    assert!(matches!(parameter_update(&NodeParameter::Mix(0), &NodeParameter::Mix(3)), Some(NodeParameter::Mix(3))));
    assert!(parameter_update(&NodeParameter::Mix(1), &NodeParameter::Mix(1)).is_none());
    assert!(parameter_update(&NodeParameter::Mix(1), &NodeParameter::Mix(4)).is_none());
}

#[test]
fn differing_image_path_is_pushed() {
    let model = NodeParameter::Image("old.png".to_string());
    let menu = NodeParameter::Image("new.png".to_string());
    let pushed = parameter_update(&model, &menu).expect("a differing path is pushed");
    assert_eq!(path(&pushed), "new.png");
    assert!(parameter_update(&model, &NodeParameter::Image("old.png".to_string())).is_none());
}

#[test]
fn mismatched_kinds_push_nothing() {
    assert!(parameter_update(&NodeParameter::Mix(0), &NodeParameter::Image("x".to_string())).is_none());
    assert!(parameter_update(&NodeParameter::Fixed, &NodeParameter::Fixed).is_none());
}

use kryon::codec::JsonError;
use kryon::ir::{EventBinding, ReactiveVariable, ScalarValue};
use kryon::{ComponentType, Dimension, IRComponent, IRDocument};

#[test]
fn test_dimension_display() {
    assert_eq!(Dimension::px(100).to_display_string(), "100px");
    assert_eq!(Dimension::percent(50).to_display_string(), "50%");
    assert_eq!(Dimension::auto().to_display_string(), "auto");
    assert_eq!(Dimension::flex(1).to_display_string(), "1fr");
}

#[test]
fn test_dimension_from_str() {
    assert_eq!(Dimension::from("100px"), Dimension::Px(100));
    assert_eq!(Dimension::from("50%"), Dimension::Percent(50));
    assert_eq!(Dimension::from("auto"), Dimension::Auto);
    assert_eq!(Dimension::from("1fr"), Dimension::Flex(1));
}

#[test]
fn test_dimension_unparseable_suffix_falls_back_to_auto() {
    assert_eq!(Dimension::from("7xyz"), Dimension::Auto);
    assert_eq!(Dimension::from(""), Dimension::Auto);
    assert_eq!(Dimension::from("px"), Dimension::Auto);
}

#[test]
fn test_dimension_round_trip_px() {
    let d = Dimension::px(100);
    let s = d.to_display_string();
    assert_eq!(s, "100px");
    assert_eq!(Dimension::from(s.as_str()), d);
}

#[test]
fn test_component_creation() {
    let component = IRComponent::new(ComponentType::Column, 1)
        .with_width("100%".to_string())
        .with_height("200px".to_string())
        .with_background("#1a1a2e".to_string());

    assert_eq!(component.id, 1);
    assert_eq!(component.component_type, ComponentType::Column);
    assert_eq!(component.width, Some("100%".to_string()));
    assert_eq!(component.height, Some("200px".to_string()));
    assert_eq!(component.background, Some("#1a1a2e".to_string()));
}

#[test]
fn test_document_serialization() {
    let root = IRComponent::new(ComponentType::Container, 1)
        .with_width("800px".to_string())
        .with_height("600px".to_string());

    let doc = IRDocument::new(root);
    let json = doc.to_json().unwrap();

    assert!(json.contains("\"format_version\": \"3.0\""));
    assert!(json.contains("\"type\": \"Container\""));
}

#[test]
fn test_document_roundtrip() {
    let root = IRComponent::new(ComponentType::Column, 1)
        .with_width("100%".to_string())
        .with_background("#000000".to_string());

    let doc = IRDocument::new(root);
    let json = doc.to_json().unwrap();
    let parsed = IRDocument::from_json(&json).unwrap();

    assert_eq!(parsed.format_version, "3.0");
    assert_eq!(parsed.root.component_type, ComponentType::Column);
    assert_eq!(parsed.root.width, Some("100%".to_string()));
}

#[test]
fn test_document_roundtrip_keeps_every_field() {
    let mut root = IRComponent::new(ComponentType::Row, 1);
    root.padding = Some(12);
    root.flex_grow = Some(3);
    root.opacity = Some(1);
    root.window_title = Some("Demo".to_string());
    let mut child = IRComponent::new(ComponentType::Button, 2);
    child.text = Some("Go \"now\" \\ fast".to_string());
    root.add_child(child);

    let mut doc = IRDocument::new(root);
    doc.logic.functions.push(("step".to_string(), "count += 1".to_string()));
    doc.logic.event_bindings.push(EventBinding {
        component_id: 2,
        event_type: "click".to_string(),
        handler: "step".to_string(),
    });
    doc.reactive_manifest.variables.push(ReactiveVariable {
        id: "count".to_string(),
        var_type: "int".to_string(),
        initial_value: ScalarValue::Int(0),
    });

    let json = doc.to_json().unwrap();
    let parsed = IRDocument::from_json(&json).unwrap();

    assert_eq!(parsed.root.padding, Some(12));
    assert_eq!(parsed.root.flex_grow, Some(3));
    assert_eq!(parsed.root.margin, None);
    assert_eq!(parsed.root.window_title, Some("Demo".to_string()));
    assert_eq!(parsed.root.children.len(), 1);
    assert_eq!(parsed.root.children[0].text, Some("Go \"now\" \\ fast".to_string()));
    assert_eq!(parsed.logic.functions.len(), 1);
    assert_eq!(parsed.logic.functions[0].0, "step");
    assert_eq!(parsed.logic.event_bindings[0].component_id, 2);
    assert_eq!(parsed.reactive_manifest.variables[0].id, "count");
    match parsed.reactive_manifest.variables[0].initial_value {
        ScalarValue::Int(n) => assert_eq!(n, 0),
        _ => panic!("expected an integer initial value"),
    }
}

#[test]
fn test_control_characters_are_escaped() {
    let mut root = IRComponent::new(ComponentType::Text, 1);
    root.content = Some("line one\nline\ttwo".to_string());
    let doc = IRDocument::new(root);
    let json = doc.to_json().unwrap();
    // The text itself holds no raw control character.
    assert!(!json.contains('\n'));
    assert!(!json.contains('\t'));
    assert!(json.contains("\\u000a"));
    assert!(json.contains("\\u0009"));
    let parsed = IRDocument::from_json(&json).unwrap();
    assert_eq!(parsed.root.content, Some("line one\nline\ttwo".to_string()));
}

#[test]
fn test_from_json_rejects_bad_syntax() {
    assert_eq!(IRDocument::from_json("not json").unwrap_err(), JsonError::Syntax);
}

#[test]
fn test_from_json_rejects_wrong_shape() {
    assert_eq!(IRDocument::from_json("42").unwrap_err(), JsonError::Schema);
}

#[test]
fn test_reading_is_defensive_about_missing_sections() {
    let root = IRComponent::new(ComponentType::Container, 1);
    let doc = IRDocument::new(root);
    let json = doc.to_json().unwrap();
    // Cut the logic and manifest sections off, keeping a valid object.
    let cut = json.find(", \"logic\"").unwrap();
    let trimmed = format!("{}}}", &json[..cut]);
    let parsed = IRDocument::from_json(&trimmed).unwrap();
    assert!(parsed.logic.functions.is_empty());
    assert!(parsed.logic.event_bindings.is_empty());
    assert!(parsed.reactive_manifest.variables.is_empty());
}

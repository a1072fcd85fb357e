use nodes::color::Color;
use nodes::template::{
    json_error_message, validate_id, validate_positive, validate_present, NodeSize, NodeStyle, NodeTemplate,
    PortDirection, PortKind, PortTemplate, PropertyTemplate, TemplateError, TemplateValue,
};

fn port(id: &str, label: &str, direction: PortDirection) -> PortTemplate {
    PortTemplate {
        id: id.to_string(),
        label: label.to_string(),
        direction,
        kind: PortKind::default(),
        item: None,
        capacity_per_tick: None,
    }
}

fn property(id: &str, label: &str) -> PropertyTemplate {
    PropertyTemplate {
        id: id.to_string(),
        label: label.to_string(),
        unit: None,
        value: TemplateValue::default(),
    }
}

fn template(id: &str, title: &str, ports: Vec<PortTemplate>) -> NodeTemplate {
    NodeTemplate {
        id: id.to_string(),
        title: title.to_string(),
        subtitle: None,
        description: None,
        size: NodeSize::default(),
        style: NodeStyle::default(),
        ports,
        properties: Vec::new(),
    }
}

fn invalid_message(result: Result<(), TemplateError>) -> String {
    match result {
        Err(TemplateError::Invalid(message)) => message,
        other => panic!("expected an invalid template, got {:?}", other),
    }
}

#[test]
fn rejects_duplicate_ports() {
    let source = template(
        "bad_node",
        "Bad Node",
        vec![
            port("ore", "Ore", PortDirection::Input),
            port("ore", "Ore", PortDirection::Output),
        ],
    );

    let error = source.validate().unwrap_err();
    assert!(error.to_string().contains("duplicate port id"));
}

#[test]
fn accepts_a_well_formed_template() {
    let mut t = template(
        "ore_source",
        "Ore Source",
        vec![port("ore_out", "Ore", PortDirection::Output), port("power", "Power", PortDirection::Input)],
    );
    t.properties.push(property("rate", "Rate"));
    assert!(t.validate().is_ok());
}

#[test]
fn defaults_match_the_template_format() {
    let size = NodeSize::default();
    assert_eq!(f32::from_bits(size.width_bits), 240.0);
    assert_eq!(f32::from_bits(size.header_height_bits), 36.0);
    assert_eq!(f32::from_bits(size.row_height_bits), 28.0);
    assert_eq!(f32::from_bits(size.padding_bits), 12.0);
    assert_eq!(f32::from_bits(size.port_radius_bits), 6.0);
    assert_eq!(NodeStyle::default().header_color, Color::rgb(54, 75, 89));
    assert_eq!(NodeStyle::default().signal_port_color, Color::rgb(111, 164, 219));
    assert_eq!(PortKind::default(), PortKind::Item);
    assert_eq!(TemplateValue::default(), TemplateValue::Text(String::new()));
}

#[test]
fn reports_the_first_broken_rule_in_order() {
    let t = template("Bad Id", "", Vec::new());
    assert_eq!(
        invalid_message(t.validate()),
        "template id 'Bad Id' must use lowercase snake_case"
    );
    let t = template("ok", " \t", Vec::new());
    assert_eq!(invalid_message(t.validate()), "template title cannot be empty");
    let mut t = template("ok", "Title", Vec::new());
    t.size.row_height_bits = 0.0f32.to_bits();
    assert_eq!(
        invalid_message(t.validate()),
        "size.row_height must be a positive finite number"
    );
}

#[test]
fn refuses_zero_capacity_and_duplicate_properties() {
    let mut p = port("belt", "Belt", PortDirection::Input);
    p.capacity_per_tick = Some(0);
    let t = template("node", "Node", vec![p]);
    assert_eq!(invalid_message(t.validate()), "port 'belt' has zero capacity_per_tick");

    let mut t = template("node", "Node", Vec::new());
    t.properties.push(property("rate", "Rate"));
    t.properties.push(property("rate", "Rate again"));
    assert_eq!(invalid_message(t.validate()), "duplicate property id 'rate'");

    let mut t = template("node", "Node", Vec::new());
    t.properties.push(property("rate", "\u{3000}"));
    assert_eq!(invalid_message(t.validate()), "property label cannot be empty");
}

#[test]
fn checks_identifiers() {
    assert!(validate_id("port id", "ore_2").is_ok());
    assert_eq!(invalid_message(validate_id("port id", "")), "port id cannot be empty");
    assert_eq!(
        invalid_message(validate_id("port id", "Ore")),
        "port id 'Ore' must use lowercase snake_case"
    );
    assert_eq!(
        invalid_message(validate_id("port id", "\u{e9}t\u{e9}")),
        "port id '\u{e9}t\u{e9}' must use lowercase snake_case"
    );
}

#[test]
fn treats_unicode_whitespace_as_blank() {
    assert!(validate_present("label", " x ").is_ok());
    assert!(validate_present("label", "\u{a0}\u{2003}\n").is_err());
    assert!(validate_present("label", "\u{200b}").is_ok());
}

#[test]
fn accepts_only_positive_finite_sizes() {
    for ok in [1.0f32, f32::MIN_POSITIVE, 1.0e-45, f32::MAX] {
        assert!(validate_positive("size.width", ok.to_bits()).is_ok(), "{ok}");
    }
    for bad in [0.0f32, -0.0, -1.0, f32::INFINITY, f32::NEG_INFINITY, f32::NAN] {
        assert_eq!(
            invalid_message(validate_positive("size.width", bad.to_bits())),
            "size.width must be a positive finite number"
        );
    }
}

#[test]
fn size_validation_names_the_first_field() {
    let mut size = NodeSize::default();
    assert!(size.validate().is_ok());
    size.port_radius_bits = f32::NAN.to_bits();
    size.padding_bits = (-2.0f32).to_bits();
    assert_eq!(invalid_message(size.validate()), "size.padding must be a positive finite number");
}

#[test]
fn json_errors_read_as_template_errors() {
    let json_error = serde_json::from_str::<serde_json::Value>("{").unwrap_err();
    let detail = json_error.to_string();
    let error = TemplateError::from(json_error);
    assert_eq!(error.to_string(), format!("invalid node template json: {detail}"));
    let invalid = TemplateError::Invalid("x".to_string());
    assert_eq!(invalid.to_string(), "invalid node template: x");
}

#[test]
fn json_message_is_prefix_then_detail() {
    assert_eq!(json_error_message("EOF while parsing"), "invalid node template json: EOF while parsing");
    assert_eq!(json_error_message(""), "invalid node template json: ");
}

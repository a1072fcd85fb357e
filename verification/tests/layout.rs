use nodes::color::Color;
use nodes::layout::{label_align, port_color, property_value_text, row_layout, TextAlign};
use nodes::template::{
    NodeSize, NodeStyle, NodeTemplate, PortDirection, PortKind, PortTemplate, PropertyTemplate,
    TemplateValue,
};

fn port(id: &str, direction: PortDirection, kind: PortKind) -> PortTemplate {
    PortTemplate {
        id: id.to_string(),
        label: id.to_string(),
        direction,
        kind,
        item: None,
        capacity_per_tick: None,
    }
}

fn template(ports: Vec<PortTemplate>, properties: usize) -> NodeTemplate {
    NodeTemplate {
        id: "node".to_string(),
        title: "Node".to_string(),
        subtitle: None,
        description: None,
        size: NodeSize::default(),
        style: NodeStyle::default(),
        ports,
        properties: (0..properties)
            .map(|i| PropertyTemplate {
                id: format!("p{i}"),
                label: format!("P{i}"),
                unit: None,
                value: TemplateValue::default(),
            })
            .collect(),
    }
}

#[test]
fn fills_each_side_from_the_top() {
    let t = template(
        vec![
            port("a", PortDirection::Input, PortKind::Item),
            port("b", PortDirection::Output, PortKind::Item),
            port("c", PortDirection::Input, PortKind::Energy),
            port("d", PortDirection::Input, PortKind::Signal),
        ],
        2,
    );
    let layout = row_layout(&t);
    assert_eq!(layout.port_row, vec![0, 0, 1, 2]);
    assert_eq!(layout.port_rows, 3);
    assert_eq!(layout.property_rows, 2);
}

#[test]
fn keeps_one_port_row_without_ports() {
    let layout = row_layout(&template(Vec::new(), 0));
    assert_eq!(layout.port_rows, 1);
    assert!(layout.port_row.is_empty());
    assert_eq!(layout.property_rows, 0);
}

#[test]
fn aligns_and_colors_ports() {
    assert_eq!(label_align(PortDirection::Input), TextAlign::Left);
    assert_eq!(label_align(PortDirection::Output), TextAlign::Right);
    let t = template(Vec::new(), 0);
    assert_eq!(port_color(&t, PortKind::Item), Color::rgb(109, 185, 129));
    assert_eq!(port_color(&t, PortKind::Energy), Color::rgb(235, 183, 74));
    assert_eq!(port_color(&t, PortKind::Signal), Color::rgb(111, 164, 219));
}

#[test]
fn writes_property_values_with_their_unit() {
    let mut p = PropertyTemplate {
        id: "rate".to_string(),
        label: "Rate".to_string(),
        unit: Some("ore/s".to_string()),
        value: TemplateValue::Number(1.5f64.to_bits()),
    };
    assert_eq!(property_value_text(&p, "1.5"), "1.5 ore/s");
    p.value = TemplateValue::Bool(true);
    assert_eq!(property_value_text(&p, "ignored"), "true ore/s");
    p.unit = None;
    p.value = TemplateValue::Bool(false);
    assert_eq!(property_value_text(&p, ""), "false");
    p.value = TemplateValue::Text("iron".to_string());
    assert_eq!(property_value_text(&p, ""), "iron");
}

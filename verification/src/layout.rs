//! The parts of a node's render plan that do not depend on its geometry:
//! which row each port and property takes, which side a label is aligned
//! to, which color a port gets, and the text a property shows.

use vstd::prelude::*;
use vstd::string::*;
use crate::color::Color;
use crate::template::{NodeTemplate, PortDirection, PortKind, PortTemplate, PropertyTemplate, TemplateValue};

verus! {

/// Which side of its anchor a label is drawn on.
#[derive(Debug, Clone, Copy, PartialEq, Eq, Structural)]
pub enum TextAlign {
    Left,
    Right,
}

/// The number of ports in `ports` that go in the given direction.
pub open spec fn direction_count(ports: Seq<PortTemplate>, direction: PortDirection) -> nat
    decreases ports.len(),
{
    if ports.len() == 0 {
        0
    } else {
        direction_count(ports.drop_last(), direction) + if ports.last().direction == direction {
            1nat
        } else {
            0nat
        }
    }
}

/// The row of port `i`: inputs and outputs each fill rows from the top, in
/// the order the ports are listed.
pub open spec fn port_row(ports: Seq<PortTemplate>, i: int) -> nat {
    direction_count(ports.take(i), ports[i].direction)
}

/// The number of port rows: the longer of the two sides, and at least one.
pub open spec fn port_row_count(ports: Seq<PortTemplate>) -> nat {
    let inputs = direction_count(ports, PortDirection::Input);
    let outputs = direction_count(ports, PortDirection::Output);
    let rows = if inputs < outputs {
        outputs
    } else {
        inputs
    };
    if rows < 1 {
        1
    } else {
        rows
    }
}

/// Counting over a longer prefix counts at least as many ports, and one more
/// for each port of the direction in between.
proof fn lemma_prefix_count(ports: Seq<PortTemplate>, direction: PortDirection, i: int, j: int)
    requires
        0 <= i <= j <= ports.len(),
    ensures
        direction_count(ports.take(i), direction) <= direction_count(ports.take(j), direction),
        i < j && ports[i].direction == direction ==> direction_count(ports.take(i), direction) + 1
            <= direction_count(ports.take(j), direction),
    decreases j - i,
{
    if i < j {
        lemma_prefix_count(ports, direction, i, j - 1);
        assert(ports.take(j).drop_last() =~= ports.take(j - 1));
        assert(ports.take(j).last() == ports[j - 1]);
        if i == j - 1 {
            assert(ports.take(i + 1).drop_last() =~= ports.take(i));
        }
    }
}

/// Every port gets a row within the port rows, and two ports on the same
/// side get different rows, in the order they are listed.
pub proof fn lemma_port_rows_fit(ports: Seq<PortTemplate>)
    ensures
        forall|i: int| 0 <= i < ports.len() ==> #[trigger] port_row(ports, i) < port_row_count(ports),
        forall|i: int, j: int|
            0 <= i < j < ports.len() && ports[i].direction == ports[j].direction ==> #[trigger] port_row(
                ports,
                i,
            ) < #[trigger] port_row(ports, j),
{
    assert(ports.take(ports.len() as int) =~= ports);
    assert forall|i: int| 0 <= i < ports.len() implies #[trigger] port_row(ports, i) < port_row_count(
        ports,
    ) by {
        lemma_prefix_count(ports, ports[i].direction, i, ports.len() as int);
    }
    assert forall|i: int, j: int|
        0 <= i < j < ports.len() && ports[i].direction == ports[j].direction implies #[trigger] port_row(
            ports,
            i,
        ) < #[trigger] port_row(ports, j) by {
        lemma_prefix_count(ports, ports[i].direction, i, j);
    }
}

/// The rows a node's body is laid out in.
#[derive(Debug, Clone, PartialEq, Eq)]
pub struct RowLayout {
    /// The number of rows the ports take.
    pub port_rows: usize,
    /// The row of each port, in the order the ports are listed.
    pub port_row: Vec<usize>,
    /// The number of property rows, one per property, below the ports.
    pub property_rows: usize,
}

/// Assigns each port its row, and counts the rows of ports and properties.
pub fn row_layout(template: &NodeTemplate) -> (layout: RowLayout)
    ensures
        layout.port_rows == port_row_count(template.ports@),
        layout.port_row@.len() == template.ports@.len(),
        forall|i: int|
            0 <= i < template.ports@.len() ==> #[trigger] layout.port_row@[i] == port_row(
                template.ports@,
                i,
            ),
        layout.property_rows == template.properties@.len(),
{
    let ports = &template.ports;
    let n = ports.len();
    let mut inputs: usize = 0;
    let mut outputs: usize = 0;
    let mut rows: Vec<usize> = Vec::new();
    for i in 0..n
        invariant
            n == ports@.len(),
            inputs == direction_count(ports@.take(i as int), PortDirection::Input),
            outputs == direction_count(ports@.take(i as int), PortDirection::Output),
            inputs + outputs == i,
            rows@.len() == i,
            forall|k: int| 0 <= k < i ==> #[trigger] rows@[k] == port_row(ports@, k),
    {
        assert(ports@.take(i + 1).drop_last() =~= ports@.take(i as int));
        match ports[i].direction {
            PortDirection::Input => {
                rows.push(inputs);
                inputs = inputs + 1;
            },
            PortDirection::Output => {
                rows.push(outputs);
                outputs = outputs + 1;
            },
        }
    }
    assert(ports@.take(n as int) =~= ports@);
    let most = if inputs < outputs {
        outputs
    } else {
        inputs
    };
    let port_rows = if most < 1 {
        1
    } else {
        most
    };
    RowLayout { port_rows, port_row: rows, property_rows: template.properties.len() }
}

/// Input labels are aligned left, next to their socket on the left edge;
/// output labels right, next to the right edge.
pub fn label_align(direction: PortDirection) -> (align: TextAlign)
    ensures
        align == match direction {
            PortDirection::Input => TextAlign::Left,
            PortDirection::Output => TextAlign::Right,
        },
{
    match direction {
        PortDirection::Input => TextAlign::Left,
        PortDirection::Output => TextAlign::Right,
    }
}

/// The socket color of a port of the given kind.
pub fn port_color(template: &NodeTemplate, kind: PortKind) -> (c: Color)
    ensures
        c == match kind {
            PortKind::Item => template.style.item_port_color,
            PortKind::Energy => template.style.energy_port_color,
            PortKind::Signal => template.style.signal_port_color,
        },
{
    match kind {
        PortKind::Item => template.style.item_port_color,
        PortKind::Energy => template.style.energy_port_color,
        PortKind::Signal => template.style.signal_port_color,
    }
}

/// The text a property shows: its value, then its unit after a space.
/// `number_text` is how a number value is written; a number is a float,
/// whose decimal form the caller supplies.
pub open spec fn property_text(property: PropertyTemplate, number_text: Seq<char>) -> Seq<char> {
    let value = match property.value {
        TemplateValue::Bool(b) => if b {
            "true"@
        } else {
            "false"@
        },
        TemplateValue::Number(_) => number_text,
        TemplateValue::Text(t) => t@,
    };
    match property.unit {
        Some(unit) => value + " "@ + unit@,
        None => value,
    }
}

/// The text a property shows. `number_text` is the decimal form of the
/// value when it is a number, and is not read otherwise.
pub fn property_value_text(property: &PropertyTemplate, number_text: &str) -> (text: String)
    ensures
        text@ == property_text(*property, number_text@),
{
    let mut value = match &property.value {
        TemplateValue::Bool(b) => if *b {
            String::from_str("true")
        } else {
            String::from_str("false")
        },
        TemplateValue::Number(_) => String::from_str(number_text),
        TemplateValue::Text(t) => String::from_str(t.as_str()),
    };
    if let Some(unit) = &property.unit {
        value.append(" ");
        value.append(unit.as_str());
    }
    value
}

} // verus!

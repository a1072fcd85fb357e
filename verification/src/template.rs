//! Node templates: the data that describes one kind of node, and the rules a
//! template must meet before a node can be built from it.
//!
//! Sizes and numeric property values are single- and double-precision floats
//! in the template files; here they are held as their IEEE-754 bit patterns,
//! which is all that the rules read of them.

use vstd::prelude::*;
use vstd::string::*;
use crate::color::Color;
use crate::text::{is_blank, is_blank_text, is_unicode_whitespace};

verus! {

/// The identifier of a template.
pub type TemplateId = String;

/// The bit pattern of a single-precision float is that of a positive finite
/// number: sign clear, not zero, exponent not all ones.
pub open spec fn is_positive_finite_f32(bits: u32) -> bool {
    0 < bits < 0x7f80_0000
}

/// The geometry of a node; each field is the bit pattern of an `f32`.
#[derive(Debug, Clone, Copy, PartialEq, Eq, Structural)]
pub struct NodeSize {
    pub width_bits: u32,
    pub header_height_bits: u32,
    pub row_height_bits: u32,
    pub padding_bits: u32,
    pub port_radius_bits: u32,
}

impl Default for NodeSize {
    /// Width 240, header 36, rows 28, padding 12, port radius 6.
    fn default() -> (size: Self)
        ensures
            size == (NodeSize {
                width_bits: 0x4370_0000,
                header_height_bits: 0x4210_0000,
                row_height_bits: 0x41e0_0000,
                padding_bits: 0x4140_0000,
                port_radius_bits: 0x40c0_0000,
            }),
    {
        NodeSize {
            width_bits: 0x4370_0000,
            header_height_bits: 0x4210_0000,
            row_height_bits: 0x41e0_0000,
            padding_bits: 0x4140_0000,
            port_radius_bits: 0x40c0_0000,
        }
    }
}

/// The colors a node is drawn with.
#[derive(Debug, Clone, Copy, PartialEq, Eq, Structural)]
pub struct NodeStyle {
    pub header_color: Color,
    pub body_color: Color,
    pub border_color: Color,
    pub text_color: Color,
    pub item_port_color: Color,
    pub energy_port_color: Color,
    pub signal_port_color: Color,
}

impl Default for NodeStyle {
    fn default() -> (style: Self)
        ensures
            style == (NodeStyle {
                header_color: Color { r: 54, g: 75, b: 89, a: 255 },
                body_color: Color { r: 24, g: 28, b: 32, a: 255 },
                border_color: Color { r: 93, g: 105, b: 116, a: 255 },
                text_color: Color { r: 235, g: 238, b: 241, a: 255 },
                item_port_color: Color { r: 109, g: 185, b: 129, a: 255 },
                energy_port_color: Color { r: 235, g: 183, b: 74, a: 255 },
                signal_port_color: Color { r: 111, g: 164, b: 219, a: 255 },
            }),
    {
        NodeStyle {
            header_color: Color::rgb(54, 75, 89),
            body_color: Color::rgb(24, 28, 32),
            border_color: Color::rgb(93, 105, 116),
            text_color: Color::rgb(235, 238, 241),
            item_port_color: Color::rgb(109, 185, 129),
            energy_port_color: Color::rgb(235, 183, 74),
            signal_port_color: Color::rgb(111, 164, 219),
        }
    }
}

/// Whether a port takes items in or gives them out.
#[derive(Debug, Clone, Copy, PartialEq, Eq, Structural)]
pub enum PortDirection {
    Input,
    Output,
}

/// What flows through a port.
#[derive(Debug, Clone, Copy, PartialEq, Eq, Structural)]
pub enum PortKind {
    Item,
    Energy,
    Signal,
}

impl Default for PortKind {
    fn default() -> (kind: Self)
        ensures
            kind == PortKind::Item,
    {
        PortKind::Item
    }
}

/// One port of a node template.
#[derive(Debug, Clone, PartialEq)]
pub struct PortTemplate {
    pub id: String,
    pub label: String,
    pub direction: PortDirection,
    pub kind: PortKind,
    pub item: Option<String>,
    pub capacity_per_tick: Option<u64>,
}

/// The value shown for a property; a number is the bit pattern of an `f64`.
#[derive(Debug, Clone, PartialEq)]
pub enum TemplateValue {
    Bool(bool),
    Number(u64),
    Text(String),
}

impl Default for TemplateValue {
    fn default() -> (value: Self)
        ensures
            value matches TemplateValue::Text(s) && s@ == Seq::<char>::empty(),
    {
        TemplateValue::Text(String::new())
    }
}

/// One property row of a node template.
#[derive(Debug, Clone, PartialEq)]
pub struct PropertyTemplate {
    pub id: String,
    pub label: String,
    pub unit: Option<String>,
    pub value: TemplateValue,
}

/// A node template.
#[derive(Debug, Clone, PartialEq)]
pub struct NodeTemplate {
    pub id: TemplateId,
    pub title: String,
    pub subtitle: Option<String>,
    pub description: Option<String>,
    pub size: NodeSize,
    pub style: NodeStyle,
    pub ports: Vec<PortTemplate>,
    pub properties: Vec<PropertyTemplate>,
}

#[verifier::external_type_specification]
#[verifier::external_body]
pub struct ExJsonError(serde_json::Error);

/// Why a template was refused: its text was not a template, or it broke a rule.
#[derive(Debug)]
pub enum TemplateError {
    Json(serde_json::Error),
    Invalid(String),
}

/// `serde_json::Error` as text, through its `Display` impl. Nothing is stated
/// of the text: it depends on the error's private fields.
#[verifier::external_body]
fn json_error_text(error: &serde_json::Error) -> String {
    error.to_string()
}

/// The sentence for a template whose text is not JSON of a template, given
/// the JSON error's own text.
pub fn json_error_message(detail: &str) -> (text: String)
    ensures
        text@ == "invalid node template json: "@ + detail@,
{
    let mut text = String::from_str("invalid node template json: ");
    text.append(detail);
    text
}

impl TemplateError {
    /// The error as a sentence, naming the broken rule or the JSON error.
    pub fn to_string(&self) -> (text: String)
        ensures
            self matches TemplateError::Invalid(m) ==> text@ == "invalid node template: "@ + m@,
            self matches TemplateError::Json(_) ==> exists|detail: Seq<char>|
                text@ == "invalid node template json: "@ + detail,
    {
        match self {
            TemplateError::Json(error) => {
                let detail = json_error_text(error);
                json_error_message(detail.as_str())
            },
            TemplateError::Invalid(message) => {
                let mut text = String::from_str("invalid node template: ");
                text.append(message.as_str());
                text
            },
        }
    }
}

impl From<serde_json::Error> for TemplateError {
    fn from(error: serde_json::Error) -> (e: Self) {
        TemplateError::Json(error)
    }
}

impl vstd::std_specs::convert::FromSpecImpl<serde_json::Error> for TemplateError {
    open spec fn obeys_from_spec() -> bool {
        true
    }

    open spec fn from_spec(v: serde_json::Error) -> Self {
        TemplateError::Json(v)
    }
}

/// The first problem of two checks run in order.
pub open spec fn first_problem(
    first: Option<Seq<char>>,
    second: Option<Seq<char>>,
) -> Option<Seq<char>> {
    if first is Some {
        first
    } else {
        second
    }
}

/// A text that must not be blank.
pub open spec fn present_problem(label: Seq<char>, value: Seq<char>) -> Option<Seq<char>> {
    if is_blank(value) {
        Some(label + " cannot be empty"@)
    } else {
        None
    }
}

/// The characters an identifier is made of: `a`-`z`, `0`-`9` and `_`.
pub open spec fn is_id_char(c: char) -> bool {
    ('a' <= c && c <= 'z') || ('0' <= c && c <= '9') || c == '_'
}

/// An identifier: present, and in lowercase snake_case.
pub open spec fn id_problem(label: Seq<char>, value: Seq<char>) -> Option<Seq<char>> {
    first_problem(
        present_problem(label, value),
        if forall|i: int| 0 <= i < value.len() ==> is_id_char(#[trigger] value[i]) {
            None
        } else {
            Some(label + " '"@ + value + "' must use lowercase snake_case"@)
        },
    )
}

/// A size that must be a positive finite number.
pub open spec fn positive_problem(label: Seq<char>, bits: u32) -> Option<Seq<char>> {
    if is_positive_finite_f32(bits) {
        None
    } else {
        Some(label + " must be a positive finite number"@)
    }
}

/// The first size field that is not a positive finite number.
pub open spec fn size_problem(size: NodeSize) -> Option<Seq<char>> {
    first_problem(
        positive_problem("size.width"@, size.width_bits),
        first_problem(
            positive_problem("size.header_height"@, size.header_height_bits),
            first_problem(
                positive_problem("size.row_height"@, size.row_height_bits),
                first_problem(
                    positive_problem("size.padding"@, size.padding_bits),
                    positive_problem("size.port_radius"@, size.port_radius_bits),
                ),
            ),
        ),
    )
}

/// The problem of port `i`, given the ports before it: its id, its label, an
/// id that an earlier port has, or a capacity of zero per tick.
pub open spec fn port_problem(ports: Seq<PortTemplate>, i: int) -> Option<Seq<char>> {
    let id = ports[i].id@;
    first_problem(
        id_problem("port id"@, id),
        first_problem(
            present_problem("port label"@, ports[i].label@),
            if exists|j: int| 0 <= j < i && (#[trigger] ports[j]).id@ == id {
                Some("duplicate port id '"@ + id + "'"@)
            } else if ports[i].capacity_per_tick == Some(0u64) {
                Some("port '"@ + id + "' has zero capacity_per_tick"@)
            } else {
                None
            },
        ),
    )
}

/// The first problem among the ports from `i` on.
pub open spec fn ports_problem(ports: Seq<PortTemplate>, i: int) -> Option<Seq<char>>
    decreases ports.len() - i,
{
    if i < 0 || i >= ports.len() {
        None
    } else {
        first_problem(port_problem(ports, i), ports_problem(ports, i + 1))
    }
}

/// The problem of property `i`, given the properties before it.
pub open spec fn property_problem(properties: Seq<PropertyTemplate>, i: int) -> Option<
    Seq<char>,
> {
    let id = properties[i].id@;
    first_problem(
        id_problem("property id"@, id),
        first_problem(
            present_problem("property label"@, properties[i].label@),
            if exists|j: int| 0 <= j < i && (#[trigger] properties[j]).id@ == id {
                Some("duplicate property id '"@ + id + "'"@)
            } else {
                None
            },
        ),
    )
}

/// The first problem among the properties from `i` on.
pub open spec fn properties_problem(properties: Seq<PropertyTemplate>, i: int) -> Option<
    Seq<char>,
>
    decreases properties.len() - i,
{
    if i < 0 || i >= properties.len() {
        None
    } else {
        first_problem(property_problem(properties, i), properties_problem(properties, i + 1))
    }
}

/// The first rule that a template breaks, checked in this order: its id, its
/// title, its size, its ports in order, its properties in order.
pub open spec fn template_problem(t: NodeTemplate) -> Option<Seq<char>> {
    first_problem(
        id_problem("template id"@, t.id@),
        first_problem(
            present_problem("template title"@, t.title@),
            first_problem(
                size_problem(t.size),
                first_problem(ports_problem(t.ports@, 0), properties_problem(t.properties@, 0)),
            ),
        ),
    )
}

/// The outcome of a check: `Ok` exactly when there is no problem, else the
/// problem's message.
pub open spec fn check_matches(res: Result<(), TemplateError>, problem: Option<Seq<char>>) -> bool {
    match res {
        Ok(()) => problem is None,
        Err(TemplateError::Invalid(m)) => problem == Some(m@),
        Err(TemplateError::Json(_)) => false,
    }
}

fn invalid(label: &str, tail: &str) -> (e: TemplateError)
    ensures
        e matches TemplateError::Invalid(m) && m@ == label@ + tail@,
{
    let mut message = String::from_str(label);
    message.append(tail);
    TemplateError::Invalid(message)
}

fn around(head: &str, value: &str, tail: &str) -> (e: TemplateError)
    ensures
        e matches TemplateError::Invalid(m) && m@ == head@ + value@ + tail@,
{
    let mut message = String::from_str(head);
    message.append(value);
    message.append(tail);
    TemplateError::Invalid(message)
}

/// Refuses a blank text.
pub fn validate_present(label: &str, value: &str) -> (res: Result<(), TemplateError>)
    ensures
        check_matches(res, present_problem(label@, value@)),
{
    if is_blank_text(value) {
        Err(invalid(label, " cannot be empty"))
    } else {
        Ok(())
    }
}

/// Refuses an identifier that is blank or not in lowercase snake_case.
pub fn validate_id(label: &str, value: &str) -> (res: Result<(), TemplateError>)
    ensures
        check_matches(res, id_problem(label@, value@)),
{
    match validate_present(label, value) {
        Ok(()) => {},
        Err(e) => return Err(e),
    }
    for c in it: value.chars()
        invariant
            it.seq() == value@,
            present_problem(label@, value@) is None,
            forall|j: int| 0 <= j < it.index() ==> is_id_char(#[trigger] value@[j]),
    {
        if !(('a' <= c && c <= 'z') || ('0' <= c && c <= '9') || c == '_') {
            assert(!is_id_char(value@[it.index() as int]));
            let mut message = String::from_str(label);
            message.append(" '");
            message.append(value);
            message.append("' must use lowercase snake_case");
            return Err(TemplateError::Invalid(message));
        }
    }
    Ok(())
}

/// Refuses a size that is not a positive finite number.
pub fn validate_positive(label: &str, bits: u32) -> (res: Result<(), TemplateError>)
    ensures
        check_matches(res, positive_problem(label@, bits)),
{
    if 0 < bits && bits < 0x7f80_0000 {
        Ok(())
    } else {
        Err(invalid(label, " must be a positive finite number"))
    }
}

impl NodeSize {
    /// Refuses a size with a field that is not a positive finite number.
    pub fn validate(self) -> (res: Result<(), TemplateError>)
        ensures
            check_matches(res, size_problem(self)),
    {
        match validate_positive("size.width", self.width_bits) {
            Ok(()) => {},
            Err(e) => return Err(e),
        }
        match validate_positive("size.header_height", self.header_height_bits) {
            Ok(()) => {},
            Err(e) => return Err(e),
        }
        match validate_positive("size.row_height", self.row_height_bits) {
            Ok(()) => {},
            Err(e) => return Err(e),
        }
        match validate_positive("size.padding", self.padding_bits) {
            Ok(()) => {},
            Err(e) => return Err(e),
        }
        validate_positive("size.port_radius", self.port_radius_bits)
    }
}

fn validate_ports(ports: &Vec<PortTemplate>) -> (res: Result<(), TemplateError>)
    ensures
        check_matches(res, ports_problem(ports@, 0)),
{
    let n = ports.len();
    for i in 0..n
        invariant
            n == ports@.len(),
            ports_problem(ports@, 0) == ports_problem(ports@, i as int),
    {
        let port = &ports[i];
        match validate_id("port id", port.id.as_str()) {
            Ok(()) => {},
            Err(e) => return Err(e),
        }
        match validate_present("port label", port.label.as_str()) {
            Ok(()) => {},
            Err(e) => return Err(e),
        }
        for j in 0..i
            invariant
                n == ports@.len(),
                i < n,
                port == ports@[i as int],
                ports_problem(ports@, 0) == ports_problem(ports@, i as int),
                id_problem("port id"@, port.id@) is None,
                present_problem("port label"@, port.label@) is None,
                forall|k: int| 0 <= k < j ==> (#[trigger] ports@[k]).id@ != port.id@,
        {
            if ports[j].id == port.id {
                assert(ports@[j as int].id@ == port.id@);
                return Err(around("duplicate port id '", port.id.as_str(), "'"));
            }
        }
        if port.capacity_per_tick == Some(0u64) {
            return Err(around("port '", port.id.as_str(), "' has zero capacity_per_tick"));
        }
    }
    Ok(())
}

fn validate_properties(properties: &Vec<PropertyTemplate>) -> (res: Result<(), TemplateError>)
    ensures
        check_matches(res, properties_problem(properties@, 0)),
{
    let n = properties.len();
    for i in 0..n
        invariant
            n == properties@.len(),
            properties_problem(properties@, 0) == properties_problem(properties@, i as int),
    {
        let property = &properties[i];
        match validate_id("property id", property.id.as_str()) {
            Ok(()) => {},
            Err(e) => return Err(e),
        }
        match validate_present("property label", property.label.as_str()) {
            Ok(()) => {},
            Err(e) => return Err(e),
        }
        for j in 0..i
            invariant
                n == properties@.len(),
                i < n,
                property == properties@[i as int],
                properties_problem(properties@, 0) == properties_problem(properties@, i as int),
                id_problem("property id"@, property.id@) is None,
                present_problem("property label"@, property.label@) is None,
                forall|k: int| 0 <= k < j ==> (#[trigger] properties@[k]).id@ != property.id@,
        {
            if properties[j].id == property.id {
                assert(properties@[j as int].id@ == property.id@);
                return Err(around("duplicate property id '", property.id.as_str(), "'"));
            }
        }
    }
    Ok(())
}

impl NodeTemplate {
    /// Checks every rule of a template, and names the first one it breaks.
    pub fn validate(&self) -> (res: Result<(), TemplateError>)
        ensures
            check_matches(res, template_problem(*self)),
    {
        match validate_id("template id", self.id.as_str()) {
            Ok(()) => {},
            Err(e) => return Err(e),
        }
        match validate_present("template title", self.title.as_str()) {
            Ok(()) => {},
            Err(e) => return Err(e),
        }
        match self.size.validate() {
            Ok(()) => {},
            Err(e) => return Err(e),
        }
        match validate_ports(&self.ports) {
            Ok(()) => {},
            Err(e) => return Err(e),
        }
        validate_properties(&self.properties)
    }
}

/// An id that is not empty and is made only of the ASCII lowercase letters
/// `a` to `z`, the ASCII digits and `_` passes the id rule.
pub proof fn lemma_snake_case_ids_pass(label: Seq<char>, value: Seq<char>)
    requires
        value.len() > 0,
        forall|i: int|
            0 <= i < value.len() ==> ('a' <= #[trigger] value[i] <= 'z') || ('0' <= value[i] <= '9')
                || value[i] == '_',
    ensures
        id_problem(label, value) is None,
{
    let c = value[0];
    assert(!is_unicode_whitespace(c));
    assert(!is_blank(value));
    assert forall|i: int| 0 <= i < value.len() implies is_id_char(#[trigger] value[i]) by {
        assert(('a' <= value[i] <= 'z') || ('0' <= value[i] <= '9') || value[i] == '_');
    }
}

/// An id that is empty, or holds any character other than an ASCII lowercase
/// letter, an ASCII digit or `_`, fails the id rule.
pub proof fn lemma_other_ids_fail(label: Seq<char>, value: Seq<char>, i: int)
    requires
        value.len() == 0 || (0 <= i < value.len() && !(('a' <= value[i] <= 'z') || ('0'
            <= value[i] <= '9') || value[i] == '_')),
    ensures
        id_problem(label, value) is Some,
{
    if value.len() > 0 {
        assert(!is_id_char(value[i]));
    }
}

/// A problem-free tail of the ports has no problem at any port in it.
proof fn lemma_ports_problem_none(ports: Seq<PortTemplate>, from: int, i: int)
    requires
        0 <= from <= i < ports.len(),
        ports_problem(ports, from) is None,
    ensures
        port_problem(ports, i) is None,
    decreases i - from,
{
    if from < i {
        lemma_ports_problem_none(ports, from + 1, i);
    }
}

/// A problem-free tail of the properties has no problem at any property in it.
proof fn lemma_properties_problem_none(properties: Seq<PropertyTemplate>, from: int, i: int)
    requires
        0 <= from <= i < properties.len(),
        properties_problem(properties, from) is None,
    ensures
        property_problem(properties, i) is None,
    decreases i - from,
{
    if from < i {
        lemma_properties_problem_none(properties, from + 1, i);
    }
}

/// A template that passes validation has a present snake_case id and a
/// title, positive finite sizes, ports and properties with present
/// snake_case ids and labels, no two ports and no two properties with the
/// same id, and no port with a capacity of zero per tick.
pub proof fn lemma_valid_template_shape(t: NodeTemplate)
    requires
        template_problem(t) is None,
    ensures
        !is_blank(t.id@),
        forall|k: int| 0 <= k < t.id@.len() ==> is_id_char(#[trigger] t.id@[k]),
        !is_blank(t.title@),
        is_positive_finite_f32(t.size.width_bits),
        is_positive_finite_f32(t.size.header_height_bits),
        is_positive_finite_f32(t.size.row_height_bits),
        is_positive_finite_f32(t.size.padding_bits),
        is_positive_finite_f32(t.size.port_radius_bits),
        forall|i: int|
            0 <= i < t.ports@.len() ==> id_problem("port id"@, (#[trigger] t.ports@[i]).id@) is None
                && !is_blank(t.ports@[i].label@) && t.ports@[i].capacity_per_tick != Some(0u64),
        forall|i: int, j: int|
            0 <= i < j < t.ports@.len() ==> (#[trigger] t.ports@[i]).id@ != (#[trigger] t.ports@[j]).id@,
        forall|i: int|
            0 <= i < t.properties@.len() ==> id_problem("property id"@, (#[trigger] t.properties@[i]).id@)
                is None && !is_blank(t.properties@[i].label@),
        forall|i: int, j: int|
            0 <= i < j < t.properties@.len() ==> (#[trigger] t.properties@[i]).id@
                != (#[trigger] t.properties@[j]).id@,
{
    let ports = t.ports@;
    let properties = t.properties@;
    assert forall|i: int|
        0 <= i < ports.len() implies id_problem("port id"@, (#[trigger] ports[i]).id@) is None
            && !is_blank(ports[i].label@) && ports[i].capacity_per_tick != Some(0u64) by {
        lemma_ports_problem_none(ports, 0, i);
    }
    assert forall|i: int, j: int|
        0 <= i < j < ports.len() implies (#[trigger] ports[i]).id@ != (#[trigger] ports[j]).id@ by {
        lemma_ports_problem_none(ports, 0, j);
    }
    assert forall|i: int|
        0 <= i < properties.len() implies id_problem("property id"@, (#[trigger] properties[i]).id@)
            is None && !is_blank(properties[i].label@) by {
        lemma_properties_problem_none(properties, 0, i);
    }
    assert forall|i: int, j: int|
        0 <= i < j < properties.len() implies (#[trigger] properties[i]).id@
            != (#[trigger] properties[j]).id@ by {
        lemma_properties_problem_none(properties, 0, j);
    }
}

} // verus!

//! Attributes attached to user-interface controls, and conversion of
//! values into attribute lists.

use vstd::prelude::*;

verus! {

/// A layout position along one axis, in integer layout units.
#[derive(Clone, Copy, PartialEq, Eq, Structural, Debug)]
pub enum Position {
    /// An absolute coordinate.
    At(i64),
    /// An offset from the matching edge of the previous control.
    Offset(i64),
    /// A stretchable span with the given weight.
    Stretch(i64),
    /// The start of the container.
    Start,
    /// The end of the container.
    End,
    /// Directly after the previous control.
    After,
}

/// The bounding box of a control, one position per edge.
#[derive(Clone, Copy, PartialEq, Eq, Structural, Debug)]
pub struct Bounds {
    pub x1: Position,
    pub y1: Position,
    pub x2: Position,
    pub y2: Position,
}

/// A property of a control: a plain value, or a binding by name.
#[derive(Clone, PartialEq, Debug)]
pub enum Property {
    /// No value.
    Nothing,
    /// A boolean value.
    Bool(bool),
    /// An integer value.
    Int(i64),
    /// A text value.
    String(String),
    /// The value bound to the named viewmodel entry.
    Bind(String),
}

/// A user action that a control can react to.
#[derive(Clone, Copy, PartialEq, Eq, Structural, Debug)]
pub enum ActionTrigger {
    Click,
    Dismiss,
    Focused,
    EditValue,
    SetValue,
    CancelEdit,
}

/// The kind of widget a control stands for.
#[derive(Clone, Copy, PartialEq, Eq, Structural, Debug)]
pub enum ControlType {
    Empty,
    Container,
    CroppingContainer,
    ScrollingContainer,
    Popup,
    Button,
    Label,
    Canvas,
    Slider,
    Rotor,
}

/// A user-interface control: its kind and its attributes, which may hold
/// further controls as subcomponents.
pub struct Control {
    pub control_type: ControlType,
    pub attributes: Vec<ControlAttribute>,
}

/// Attribute attached to a control.
pub enum ControlAttribute {
    /// The bounding box for this control.
    BoundingBox(Bounds),
    /// The text for this control.
    Text(Property),
    /// Whether or not this control is selected.
    Selected(Property),
    /// The unique id for this control.
    Id(String),
    /// Subcomponents of this control.
    SubComponents(Vec<Control>),
    /// The controller that manages the subcomponents of this control.
    Controller(String),
    /// When the given action occurs, send the named event to the
    /// controller.
    Action(ActionTrigger, String),
}

/// Whether two properties hold the same value, comparing text by contents.
pub open spec fn property_matches(a: Property, b: Property) -> bool {
    match a {
        Property::Nothing => b is Nothing,
        Property::Bool(x) => b matches Property::Bool(y) && x == y,
        Property::Int(x) => b matches Property::Int(y) && x == y,
        Property::String(x) => b matches Property::String(y) && x@ == y@,
        Property::Bind(x) => b matches Property::Bind(y) && x@ == y@,
    }
}

/// Whether two attributes look the same at this level: payloads compared
/// by value, text by contents, and subcomponents only by their number.
pub open spec fn flat_same(a: ControlAttribute, b: ControlAttribute) -> bool {
    match a {
        ControlAttribute::BoundingBox(x) => b matches ControlAttribute::BoundingBox(y) && x == y,
        ControlAttribute::Text(x) => b matches ControlAttribute::Text(y) && property_matches(x, y),
        ControlAttribute::Selected(x) => b matches ControlAttribute::Selected(y)
            && property_matches(x, y),
        ControlAttribute::Id(x) => b matches ControlAttribute::Id(y) && x@ == y@,
        ControlAttribute::SubComponents(x) => b matches ControlAttribute::SubComponents(y)
            && x@.len() == y@.len(),
        ControlAttribute::Controller(x) => b matches ControlAttribute::Controller(y) && x@ == y@,
        ControlAttribute::Action(t, x) => b matches ControlAttribute::Action(u, y) && t == u && x@
            == y@,
    }
}

/// Compares two properties, text by contents.
fn property_eq(a: &Property, b: &Property) -> (r: bool)
    ensures
        r == property_matches(*a, *b),
{
    match a {
        Property::Nothing => match b {
            Property::Nothing => true,
            _ => false,
        },
        Property::Bool(x) => match b {
            Property::Bool(y) => *x == *y,
            _ => false,
        },
        Property::Int(x) => match b {
            Property::Int(y) => *x == *y,
            _ => false,
        },
        Property::String(x) => match b {
            Property::String(y) => *x == *y,
            _ => false,
        },
        Property::Bind(x) => match b {
            Property::Bind(y) => *x == *y,
            _ => false,
        },
    }
}

impl ControlAttribute {
    /// The bounding box represented by this attribute.
    pub fn bounding_box(&self) -> (r: Option<&Bounds>)
        ensures
            match self {
                ControlAttribute::BoundingBox(bounds) => r == Some(bounds),
                _ => r is None,
            },
    {
        match self {
            ControlAttribute::BoundingBox(bounds) => Some(bounds),
            _ => None,
        }
    }

    /// The text represented by this attribute.
    pub fn text(&self) -> (r: Option<&Property>)
        ensures
            match self {
                ControlAttribute::Text(text) => r == Some(text),
                _ => r is None,
            },
    {
        match self {
            ControlAttribute::Text(text) => Some(text),
            _ => None,
        }
    }

    /// The unique id represented by this attribute.
    pub fn id(&self) -> (r: Option<&String>)
        ensures
            match self {
                ControlAttribute::Id(id) => r == Some(id),
                _ => r is None,
            },
    {
        match self {
            ControlAttribute::Id(id) => Some(id),
            _ => None,
        }
    }

    /// The subcomponents represented by this attribute.
    pub fn subcomponents(&self) -> (r: Option<&Vec<Control>>)
        ensures
            match self {
                ControlAttribute::SubComponents(components) => r == Some(components),
                _ => r is None,
            },
    {
        match self {
            ControlAttribute::SubComponents(components) => Some(components),
            _ => None,
        }
    }

    /// The controller name represented by this attribute.
    pub fn controller(&self) -> (r: Option<&String>)
        ensures
            match self {
                ControlAttribute::Controller(controller) => r == Some(controller),
                _ => r is None,
            },
    {
        match self {
            ControlAttribute::Controller(controller) => Some(controller),
            _ => None,
        }
    }

    /// The action represented by this attribute.
    pub fn action(&self) -> (r: Option<(&ActionTrigger, &String)>)
        ensures
            match self {
                ControlAttribute::Action(trigger, name) => r == Some((trigger, name)),
                _ => r is None,
            },
    {
        match self {
            ControlAttribute::Action(trigger, name) => Some((trigger, name)),
            _ => None,
        }
    }

    /// The selected flag represented by this attribute.
    pub fn selected(&self) -> (r: Option<&Property>)
        ensures
            match self {
                ControlAttribute::Selected(is_selected) => r == Some(is_selected),
                _ => r is None,
            },
    {
        match self {
            ControlAttribute::Selected(is_selected) => Some(is_selected),
            _ => None,
        }
    }

    /// Reports whether this attribute and another look the same at this
    /// level: payloads are compared by value, but subcomponents only by
    /// their number, without recursing into them.
    pub fn is_different_flat(&self, compare_to: &ControlAttribute) -> (r: bool)
        ensures
            r == flat_same(*self, *compare_to),
    {
        match self {
            ControlAttribute::BoundingBox(bounds) => match compare_to.bounding_box() {
                Some(other) => *bounds == *other,
                None => false,
            },
            ControlAttribute::Text(text) => match compare_to.text() {
                Some(other) => property_eq(text, other),
                None => false,
            },
            ControlAttribute::Id(id) => match compare_to.id() {
                Some(other) => *id == *other,
                None => false,
            },
            ControlAttribute::Controller(controller) => match compare_to.controller() {
                Some(other) => *controller == *other,
                None => false,
            },
            ControlAttribute::Action(trigger, name) => match compare_to.action() {
                Some((other_trigger, other_name)) => *trigger == *other_trigger && *name
                    == *other_name,
                None => false,
            },
            ControlAttribute::Selected(is_selected) => match compare_to.selected() {
                Some(other) => property_eq(is_selected, other),
                None => false,
            },
            ControlAttribute::SubComponents(components) => match compare_to.subcomponents() {
                Some(other) => components.len() == other.len(),
                None => false,
            },
        }
    }
}

/// Things that can be converted into control attributes.
pub trait ToControlAttributes: Sized {
    /// What it means for an attribute list to represent this value.
    spec fn attributes_ok(self, attrs: Seq<ControlAttribute>) -> bool;

    /// Converts this value into its control attributes.
    fn attributes(self) -> (r: Vec<ControlAttribute>)
        ensures
            self.attributes_ok(r@),
    ;
}

impl ToControlAttributes for ControlAttribute {
    /// One attribute: itself.
    open spec fn attributes_ok(self, attrs: Seq<ControlAttribute>) -> bool {
        attrs == seq![self]
    }

    fn attributes(self) -> (r: Vec<ControlAttribute>) {
        let mut r: Vec<ControlAttribute> = Vec::new();
        r.push(self);
        proof {
            assert(r@ =~= seq![self]);
        }
        r
    }
}

impl ToControlAttributes for String {
    /// One text attribute holding this string.
    open spec fn attributes_ok(self, attrs: Seq<ControlAttribute>) -> bool {
        attrs == seq![ControlAttribute::Text(Property::String(self))]
    }

    fn attributes(self) -> (r: Vec<ControlAttribute>) {
        let mut r: Vec<ControlAttribute> = Vec::new();
        let ghost expected = seq![ControlAttribute::Text(Property::String(self))];
        r.push(ControlAttribute::Text(Property::String(self)));
        proof {
            assert(r@ =~= expected);
        }
        r
    }
}

impl ToControlAttributes for Bounds {
    /// One bounding box attribute holding these bounds.
    open spec fn attributes_ok(self, attrs: Seq<ControlAttribute>) -> bool {
        attrs == seq![ControlAttribute::BoundingBox(self)]
    }

    fn attributes(self) -> (r: Vec<ControlAttribute>) {
        let mut r: Vec<ControlAttribute> = Vec::new();
        r.push(ControlAttribute::BoundingBox(self));
        proof {
            assert(r@ =~= seq![ControlAttribute::BoundingBox(self)]);
        }
        r
    }
}

impl ToControlAttributes for (ActionTrigger, String) {
    /// One action attribute with this trigger and event name.
    open spec fn attributes_ok(self, attrs: Seq<ControlAttribute>) -> bool {
        attrs == seq![ControlAttribute::Action(self.0, self.1)]
    }

    fn attributes(self) -> (r: Vec<ControlAttribute>) {
        let mut r: Vec<ControlAttribute> = Vec::new();
        let ghost expected = seq![ControlAttribute::Action(self.0, self.1)];
        let (trigger, name) = self;
        r.push(ControlAttribute::Action(trigger, name));
        proof {
            assert(r@ =~= expected);
        }
        r
    }
}

impl ToControlAttributes for Vec<ControlAttribute> {
    /// The same attributes, one for one.
    open spec fn attributes_ok(self, attrs: Seq<ControlAttribute>) -> bool {
        attrs == self@
    }

    fn attributes(self) -> (r: Vec<ControlAttribute>) {
        self
    }
}

impl ToControlAttributes for Vec<Control> {
    /// One subcomponents attribute holding these controls.
    open spec fn attributes_ok(self, attrs: Seq<ControlAttribute>) -> bool {
        attrs == seq![ControlAttribute::SubComponents(self)]
    }

    fn attributes(self) -> (r: Vec<ControlAttribute>) {
        let mut r: Vec<ControlAttribute> = Vec::new();
        let ghost expected = seq![ControlAttribute::SubComponents(self)];
        r.push(ControlAttribute::SubComponents(self));
        proof {
            assert(r@ =~= expected);
        }
        r
    }
}

} // verus!

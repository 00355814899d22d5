//! OrbitKit components: button, input, card and layout, with how their
//! props fill them in. Click and change handlers are kept as values of a
//! type parameter.
use vstd::prelude::*;
use crate::component::{ComponentError, ComponentId};

verus! {

// ---------------------------------------------------------------------
// Button
// ---------------------------------------------------------------------

/// Button size variants.
#[derive(Debug, Clone, Copy, PartialEq, Eq, Structural)]
pub enum ButtonSize {
    Small,
    Medium,
    Large,
}

/// Button style variants.
#[derive(Debug, Clone, Copy, PartialEq, Eq, Structural)]
pub enum ButtonVariant {
    Primary,
    Secondary,
    Outline,
    Plain,
    Link,
}

/// A button that follows Orbit's design system.
#[derive(Debug)]
pub struct Button<H> {
    /// Text content of the button.
    pub text: String,
    /// Visual style variant.
    pub variant: ButtonVariant,
    /// Whether the button is disabled.
    pub disabled: bool,
    /// Size variant.
    pub size: ButtonSize,
    /// Click event handler.
    pub on_click: Option<H>,
}

/// Properties of a button; what is left out takes its default.
#[derive(Debug, Clone)]
pub struct ButtonProps<H> {
    /// Text content of the button.
    pub text: String,
    /// Visual style variant.
    pub variant: Option<ButtonVariant>,
    /// Whether the button is disabled.
    pub disabled: Option<bool>,
    /// Size variant.
    pub size: Option<ButtonSize>,
    /// Click event handler.
    pub on_click: Option<H>,
}

impl<H> Button<H> {
    /// A medium primary button, enabled, with no text and no handler.
    pub fn new() -> (r: Self)
        ensures
            r.text@ == Seq::<char>::empty(),
            r.variant == ButtonVariant::Primary,
            !r.disabled,
            r.size == ButtonSize::Medium,
            r.on_click is None,
    {
        Button {
            text: String::new(),
            variant: ButtonVariant::Primary,
            disabled: false,
            size: ButtonSize::Medium,
            on_click: None,
        }
    }

    /// A button made from props: a primary, enabled, medium button unless
    /// the props say otherwise.
    pub fn create(props: ButtonProps<H>) -> (r: Self)
        ensures
            r.text == props.text,
            r.variant == props.variant.unwrap_or(ButtonVariant::Primary),
            r.disabled == props.disabled.unwrap_or(false),
            r.size == props.size.unwrap_or(ButtonSize::Medium),
            r.on_click == props.on_click,
    {
        Button {
            text: props.text,
            variant: props.variant.unwrap_or(ButtonVariant::Primary),
            disabled: props.disabled.unwrap_or(false),
            size: props.size.unwrap_or(ButtonSize::Medium),
            on_click: props.on_click,
        }
    }

    /// Takes new props: text and handler are replaced, the other settings
    /// change only where the props give them.
    pub fn update(&mut self, props: ButtonProps<H>) -> (r: Result<(), ComponentError>)
        ensures
            r is Ok,
            final(self).text == props.text,
            final(self).variant == props.variant.unwrap_or(old(self).variant),
            final(self).disabled == props.disabled.unwrap_or(old(self).disabled),
            final(self).size == props.size.unwrap_or(old(self).size),
            final(self).on_click == props.on_click,
    {
        self.text = props.text;
        self.variant = props.variant.unwrap_or(self.variant);
        self.disabled = props.disabled.unwrap_or(self.disabled);
        self.size = props.size.unwrap_or(self.size);
        self.on_click = props.on_click;
        Ok(())
    }
}

// ---------------------------------------------------------------------
// Input
// ---------------------------------------------------------------------

/// A text input field.
#[derive(Debug)]
pub struct Input<H> {
    /// Input type (text, password, email, ...).
    pub input_type: String,
    /// Current value.
    pub value: String,
    /// Placeholder text.
    pub placeholder: Option<String>,
    /// Whether the input is disabled.
    pub disabled: bool,
    /// Whether the input is required.
    pub required: bool,
    /// Label.
    pub label: Option<String>,
    /// Error message.
    pub error: Option<String>,
    /// Helper text.
    pub helper_text: Option<String>,
    /// Change handler.
    pub on_change: Option<H>,
}

/// Properties of an input; what is left out takes its default.
#[derive(Debug, Clone)]
pub struct InputProps<H> {
    /// Input type (text, password, email, ...).
    pub input_type: Option<String>,
    /// Current value.
    pub value: String,
    /// Placeholder text.
    pub placeholder: Option<String>,
    /// Whether the input is disabled.
    pub disabled: Option<bool>,
    /// Whether the input is required.
    pub required: Option<bool>,
    /// Label.
    pub label: Option<String>,
    /// Error message.
    pub error: Option<String>,
    /// Helper text.
    pub helper_text: Option<String>,
    /// Change handler.
    pub on_change: Option<H>,
}

impl<H> Input<H> {
    /// An empty, enabled, optional text input.
    pub fn new() -> (r: Self)
        ensures
            r.input_type@ == "text"@,
            r.value@ == Seq::<char>::empty(),
            r.placeholder is None,
            !r.disabled,
            !r.required,
            r.label is None,
            r.error is None,
            r.helper_text is None,
            r.on_change is None,
    {
        Input {
            input_type: "text".to_owned(),
            value: String::new(),
            placeholder: None,
            disabled: false,
            required: false,
            label: None,
            error: None,
            helper_text: None,
            on_change: None,
        }
    }

    /// An input made from props: a text input, enabled and optional,
    /// unless the props say otherwise.
    pub fn create(props: InputProps<H>) -> (r: Self)
        ensures
            props.input_type is None ==> r.input_type@ == "text"@,
            props.input_type matches Some(t) ==> r.input_type == t,
            r.value == props.value,
            r.placeholder == props.placeholder,
            r.disabled == props.disabled.unwrap_or(false),
            r.required == props.required.unwrap_or(false),
            r.label == props.label,
            r.error == props.error,
            r.helper_text == props.helper_text,
            r.on_change == props.on_change,
    {
        let input_type = match props.input_type {
            Some(t) => t,
            None => "text".to_owned(),
        };
        Input {
            input_type,
            value: props.value,
            placeholder: props.placeholder,
            disabled: props.disabled.unwrap_or(false),
            required: props.required.unwrap_or(false),
            label: props.label,
            error: props.error,
            helper_text: props.helper_text,
            on_change: props.on_change,
        }
    }

    /// Takes new props: the type, disabled and required settings change
    /// only where the props give them; everything else is replaced.
    pub fn update(&mut self, props: InputProps<H>) -> (r: Result<(), ComponentError>)
        ensures
            r is Ok,
            props.input_type is None ==> final(self).input_type@ == old(self).input_type@,
            props.input_type matches Some(t) ==> final(self).input_type == t,
            final(self).value == props.value,
            final(self).placeholder == props.placeholder,
            final(self).disabled == props.disabled.unwrap_or(old(self).disabled),
            final(self).required == props.required.unwrap_or(old(self).required),
            final(self).label == props.label,
            final(self).error == props.error,
            final(self).helper_text == props.helper_text,
            final(self).on_change == props.on_change,
    {
        match props.input_type {
            Some(t) => {
                self.input_type = t;
            },
            None => {},
        }
        self.value = props.value;
        self.placeholder = props.placeholder;
        self.disabled = props.disabled.unwrap_or(self.disabled);
        self.required = props.required.unwrap_or(self.required);
        self.label = props.label;
        self.error = props.error;
        self.helper_text = props.helper_text;
        self.on_change = props.on_change;
        Ok(())
    }
}

// ---------------------------------------------------------------------
// Card
// ---------------------------------------------------------------------

/// A card: a titled, padded box.
#[derive(Debug)]
pub struct Card {
    /// Component identifier.
    pub id: ComponentId,
    /// Title.
    pub title: Option<String>,
    /// Elevation (shadow level).
    pub elevation: u8,
    /// Border radius.
    pub border_radius: String,
    /// Whether the card has a border.
    pub bordered: bool,
    /// Padding.
    pub padding: String,
    /// Child content.
    pub children: Option<String>,
}

/// Properties of a card; what is left out takes its default.
#[derive(Debug, Clone)]
pub struct CardProps {
    /// Title.
    pub title: Option<String>,
    /// Elevation (shadow level).
    pub elevation: Option<u8>,
    /// Border radius.
    pub border_radius: Option<String>,
    /// Whether the card has a border.
    pub bordered: Option<bool>,
    /// Padding.
    pub padding: Option<String>,
    /// Child content.
    pub children: Option<String>,
}

impl Card {
    /// A default card with the given identifier: elevation 1, radius
    /// `4px`, no border, padding `16px`, no title and no content.
    pub fn new(id: ComponentId) -> (r: Self)
        ensures
            r.id == id,
            r.title is None,
            r.elevation == 1,
            r.border_radius@ == "4px"@,
            !r.bordered,
            r.padding@ == "16px"@,
            r.children is None,
    {
        Card {
            id,
            title: None,
            elevation: 1,
            border_radius: "4px".to_owned(),
            bordered: false,
            padding: "16px".to_owned(),
            children: None,
        }
    }

    /// A card made from props, with the given identifier; defaults as in
    /// `new` where the props give nothing.
    pub fn create(props: CardProps, id: ComponentId) -> (r: Self)
        ensures
            r.id == id,
            r.title == props.title,
            r.elevation == props.elevation.unwrap_or(1),
            props.border_radius is None ==> r.border_radius@ == "4px"@,
            props.border_radius matches Some(b) ==> r.border_radius == b,
            r.bordered == props.bordered.unwrap_or(false),
            props.padding is None ==> r.padding@ == "16px"@,
            props.padding matches Some(p) ==> r.padding == p,
            r.children == props.children,
    {
        let border_radius = match props.border_radius {
            Some(b) => b,
            None => "4px".to_owned(),
        };
        let padding = match props.padding {
            Some(p) => p,
            None => "16px".to_owned(),
        };
        Card {
            id,
            title: props.title,
            elevation: props.elevation.unwrap_or(1),
            border_radius,
            bordered: props.bordered.unwrap_or(false),
            padding,
            children: props.children,
        }
    }

    /// The card's identifier.
    pub fn component_id(&self) -> (r: ComponentId)
        ensures
            r == self.id,
    {
        self.id
    }

    /// Takes new props: title and content are replaced, the other
    /// settings change only where the props give them.
    pub fn update(&mut self, props: CardProps) -> (r: Result<(), ComponentError>)
        ensures
            r is Ok,
            final(self).id == old(self).id,
            final(self).title == props.title,
            final(self).elevation == props.elevation.unwrap_or(old(self).elevation),
            props.border_radius is None ==> final(self).border_radius@ == old(self).border_radius@,
            props.border_radius matches Some(b) ==> final(self).border_radius == b,
            final(self).bordered == props.bordered.unwrap_or(old(self).bordered),
            props.padding is None ==> final(self).padding@ == old(self).padding@,
            props.padding matches Some(p) ==> final(self).padding == p,
            final(self).children == props.children,
    {
        self.title = props.title;
        self.elevation = props.elevation.unwrap_or(self.elevation);
        match props.border_radius {
            Some(b) => {
                self.border_radius = b;
            },
            None => {},
        }
        self.bordered = props.bordered.unwrap_or(self.bordered);
        match props.padding {
            Some(p) => {
                self.padding = p;
            },
            None => {},
        }
        self.children = props.children;
        Ok(())
    }
}

// ---------------------------------------------------------------------
// Layout
// ---------------------------------------------------------------------

/// Layout direction.
#[derive(Debug, Clone, Copy, PartialEq, Eq, Structural)]
pub enum Direction {
    /// Horizontal.
    Row,
    /// Vertical.
    Column,
}

/// Cross-axis alignment.
#[derive(Debug, Clone, Copy, PartialEq, Eq, Structural)]
pub enum Alignment {
    /// At the start.
    Start,
    /// At the center.
    Center,
    /// At the end.
    End,
    /// Stretched to fill the container.
    Stretch,
}

/// Main-axis justification.
#[derive(Debug, Clone, Copy, PartialEq, Eq, Structural)]
pub enum Justification {
    /// At the start.
    Start,
    /// At the center.
    Center,
    /// At the end.
    End,
    /// Space between items.
    SpaceBetween,
    /// Space around items.
    SpaceAround,
    /// Space evenly between items.
    SpaceEvenly,
}

impl Default for Direction {
    fn default() -> (r: Self)
        ensures
            r == Direction::Row,
    {
        Direction::Row
    }
}

impl Default for Alignment {
    fn default() -> (r: Self)
        ensures
            r == Alignment::Start,
    {
        Alignment::Start
    }
}

impl Default for Justification {
    fn default() -> (r: Self)
        ensures
            r == Justification::Start,
    {
        Justification::Start
    }
}

/// A flex container.
#[derive(Debug)]
pub struct Layout {
    /// Direction.
    pub direction: Direction,
    /// Alignment.
    pub align: Alignment,
    /// Justification.
    pub justify: Justification,
    /// Gap between items.
    pub gap: String,
    /// Padding.
    pub padding: String,
    /// Child content.
    pub children: Option<String>,
}

/// Properties of a layout; what is left out takes its default.
#[derive(Debug, Clone)]
pub struct LayoutProps {
    /// Direction.
    pub direction: Option<Direction>,
    /// Alignment.
    pub align: Option<Alignment>,
    /// Justification.
    pub justify: Option<Justification>,
    /// Gap between items.
    pub gap: Option<String>,
    /// Padding.
    pub padding: Option<String>,
    /// Child content.
    pub children: Option<String>,
}

impl Layout {
    /// A row, aligned and justified at the start, with no gap, no padding
    /// and no content.
    pub fn new() -> (r: Self)
        ensures
            r.direction == Direction::Row,
            r.align == Alignment::Start,
            r.justify == Justification::Start,
            r.gap@ == "0px"@,
            r.padding@ == "0px"@,
            r.children is None,
    {
        Layout {
            direction: Direction::Row,
            align: Alignment::Start,
            justify: Justification::Start,
            gap: "0px".to_owned(),
            padding: "0px".to_owned(),
            children: None,
        }
    }

    /// A layout made from props; defaults as in `new` where the props give
    /// nothing.
    pub fn create(props: LayoutProps) -> (r: Self)
        ensures
            r.direction == props.direction.unwrap_or(Direction::Row),
            r.align == props.align.unwrap_or(Alignment::Start),
            r.justify == props.justify.unwrap_or(Justification::Start),
            props.gap is None ==> r.gap@ == "0px"@,
            props.gap matches Some(g) ==> r.gap == g,
            props.padding is None ==> r.padding@ == "0px"@,
            props.padding matches Some(p) ==> r.padding == p,
            r.children == props.children,
    {
        let gap = match props.gap {
            Some(g) => g,
            None => "0px".to_owned(),
        };
        let padding = match props.padding {
            Some(p) => p,
            None => "0px".to_owned(),
        };
        Layout {
            direction: props.direction.unwrap_or(Direction::Row),
            align: props.align.unwrap_or(Alignment::Start),
            justify: props.justify.unwrap_or(Justification::Start),
            gap,
            padding,
            children: props.children,
        }
    }

    /// Takes new props: content is replaced, the other settings change
    /// only where the props give them.
    pub fn update(&mut self, props: LayoutProps) -> (r: Result<(), ComponentError>)
        ensures
            r is Ok,
            final(self).direction == props.direction.unwrap_or(old(self).direction),
            final(self).align == props.align.unwrap_or(old(self).align),
            final(self).justify == props.justify.unwrap_or(old(self).justify),
            props.gap is None ==> final(self).gap@ == old(self).gap@,
            props.gap matches Some(g) ==> final(self).gap == g,
            props.padding is None ==> final(self).padding@ == old(self).padding@,
            props.padding matches Some(p) ==> final(self).padding == p,
            final(self).children == props.children,
    {
        self.direction = props.direction.unwrap_or(self.direction);
        self.align = props.align.unwrap_or(self.align);
        self.justify = props.justify.unwrap_or(self.justify);
        match props.gap {
            Some(g) => {
                self.gap = g;
            },
            None => {},
        }
        match props.padding {
            Some(p) => {
                self.padding = p;
            },
            None => {},
        }
        self.children = props.children;
        Ok(())
    }
}

} // verus!

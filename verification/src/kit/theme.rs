//! Themes for OrbitKit components.
use vstd::prelude::*;
use crate::component::ComponentError;

verus! {

/// Colors, shape and typography shared by components.
#[derive(Debug, Clone)]
pub struct Theme {
    /// Primary color.
    pub primary_color: String,
    /// Secondary color.
    pub secondary_color: String,
    /// Text color.
    pub text_color: String,
    /// Background color.
    pub background_color: String,
    /// Error color.
    pub error_color: String,
    /// Success color.
    pub success_color: String,
    /// Warning color.
    pub warning_color: String,
    /// Info color.
    pub info_color: String,
    /// Border radius.
    pub border_radius: String,
    /// Font family.
    pub font_family: String,
    /// Font size.
    pub font_size: String,
}

impl Theme {
    /// This is the default theme.
    pub open spec fn is_default(self) -> bool {
        &&& self.primary_color@ == "#0070f3"@
        &&& self.secondary_color@ == "#f5f5f5"@
        &&& self.text_color@ == "#333333"@
        &&& self.background_color@ == "#ffffff"@
        &&& self.error_color@ == "#ff0000"@
        &&& self.success_color@ == "#00cc00"@
        &&& self.warning_color@ == "#ffcc00"@
        &&& self.info_color@ == "#0088cc"@
        &&& self.border_radius@ == "4px"@
        &&& self.font_family@ == "Arial, sans-serif"@
        &&& self.font_size@ == "16px"@
    }
}

impl Default for Theme {
    fn default() -> (r: Self)
        ensures
            r.is_default(),
    {
        Theme {
            primary_color: "#0070f3".to_owned(),
            secondary_color: "#f5f5f5".to_owned(),
            text_color: "#333333".to_owned(),
            background_color: "#ffffff".to_owned(),
            error_color: "#ff0000".to_owned(),
            success_color: "#00cc00".to_owned(),
            warning_color: "#ffcc00".to_owned(),
            info_color: "#0088cc".to_owned(),
            border_radius: "4px".to_owned(),
            font_family: "Arial, sans-serif".to_owned(),
            font_size: "16px".to_owned(),
        }
    }
}

/// A component that provides a theme to its content.
#[derive(Debug)]
pub struct ThemeProvider {
    /// The theme.
    pub theme: Theme,
    /// Child content.
    pub children: Option<String>,
}

/// Properties of a theme provider.
#[derive(Debug, Clone)]
pub struct ThemeProviderProps {
    /// The theme; the default theme when left out.
    pub theme: Option<Theme>,
    /// Child content.
    pub children: Option<String>,
}

impl ThemeProvider {
    /// A provider made from props: their theme, or the default theme.
    pub fn create(props: ThemeProviderProps) -> (r: Self)
        ensures
            props.theme is None ==> r.theme.is_default(),
            props.theme matches Some(t) ==> r.theme == t,
            r.children == props.children,
    {
        let theme = match props.theme {
            Some(t) => t,
            None => Theme::default(),
        };
        ThemeProvider { theme, children: props.children }
    }

    /// Takes new props: the theme changes only when the props give one;
    /// the content is replaced.
    pub fn update(&mut self, props: ThemeProviderProps) -> (r: Result<(), ComponentError>)
        ensures
            r is Ok,
            props.theme is None ==> final(self).theme == old(self).theme,
            props.theme matches Some(t) ==> final(self).theme == t,
            final(self).children == props.children,
    {
        match props.theme {
            Some(t) => {
                self.theme = t;
            },
            None => {},
        }
        self.children = props.children;
        Ok(())
    }
}

} // verus!

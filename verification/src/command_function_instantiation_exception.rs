//! The error raised when a function cannot be instantiated.

use vstd::prelude::*;

verus! {

#[derive(Debug, Clone, PartialEq, Eq)]
pub struct ComponentModel {
    plain_text: String,
    style: Option<&'static str>,
}

#[derive(Debug, Clone, PartialEq, Eq)]
pub struct FunctionInstantiationExceptionModel {
    exception_message: String,
    message_component: ComponentModel,
}

impl ComponentModel {
    pub closed spec fn text_view(&self) -> Seq<char> {
        self.plain_text@
    }

    pub closed spec fn style_view(&self) -> Option<&'static str> {
        self.style
    }

    pub fn literal(plain_text: &str) -> (r: Self)
        ensures
            r.text_view() == plain_text@,
            r.style_view() is None,
    {
        ComponentModel { plain_text: plain_text.to_owned(), style: None }
    }

    pub fn with_style(self, style: &'static str) -> (r: Self)
        ensures
            r.text_view() == self.text_view(),
            r.style_view() == Some(style),
    {
        ComponentModel { plain_text: self.plain_text, style: Some(style) }
    }

    fn get_string(&self) -> (r: String)
        ensures
            r@ == self.text_view(),
    {
        self.plain_text.clone()
    }
}

impl FunctionInstantiationExceptionModel {
    pub closed spec fn message_view(&self) -> Seq<char> {
        self.exception_message@
    }

    pub closed spec fn component_view(&self) -> ComponentModel {
        self.message_component
    }

    /// The exception's message is the component's plain text.
    pub fn new(message_component: ComponentModel) -> (r: Self)
        ensures
            r.message_view() == message_component.text_view(),
            r.component_view() == message_component,
    {
        FunctionInstantiationExceptionModel {
            exception_message: message_component.get_string(),
            message_component,
        }
    }

    pub fn get_message(&self) -> (r: &str)
        ensures
            r@ == self.message_view(),
    {
        self.exception_message.as_str()
    }

    pub fn message_component(&self) -> (r: &ComponentModel)
        ensures
            *r == self.component_view(),
    {
        &self.message_component
    }
}

} // verus!

use lib::command_function_instantiation_exception::{FunctionInstantiationExceptionModel, ComponentModel};
#[test]
fn constructor_sets_exception_message_from_component_string() {
    let exception = FunctionInstantiationExceptionModel::new(
        ComponentModel::literal("Missing macro argument").with_style("red"),
    );

    assert_eq!(exception.get_message(), "Missing macro argument");
}

#[test]
fn message_component_returns_original_component_with_style_intact() {
    let component = ComponentModel::literal("Invalid macro").with_style("yellow");
    let exception = FunctionInstantiationExceptionModel::new(component.clone());

    assert_eq!(exception.message_component(), &component);
}

//! Small argument-side pieces: the marker for arguments whose value may be
//! signed by the player, the package's null-marking, and the waypoint
//! argument, which wants the single selected entity to be a waypoint.

use vstd::prelude::*;
use crate::arg_map::ArgMap;

verus! {

/// An argument type and the value it parses to.
pub trait ArgumentTypeModel {
    type Output;
}

/// An argument whose value may be signed by the player who sent it.
pub trait SignedArgumentModel: ArgumentTypeModel {
}

#[derive(Debug, Clone, PartialEq, Eq)]
pub struct ExampleSignedArgument;

impl ArgumentTypeModel for ExampleSignedArgument {
    type Output = String;
}

impl SignedArgumentModel for ExampleSignedArgument {
}

/// A signed argument's value is the parsed value itself: being signed adds
/// nothing to it.
pub fn signed_argument_output<T: SignedArgumentModel>(argument: &T, value: T::Output) -> (r: T::Output)
    ensures
        r == value,
{
    value
}

#[derive(Debug, Clone, Copy, PartialEq, Eq)]
pub struct PackageInfoModel {
    package_name: &'static str,
    null_marked: bool,
    annotation_type: &'static str,
}

impl PackageInfoModel {
    pub closed spec fn view(&self) -> (Seq<char>, bool, Seq<char>) {
        (self.package_name@, self.null_marked, self.annotation_type@)
    }

    pub fn java_commands_arguments_package() -> (r: Self)
        ensures
            r@ == ("net.minecraft.commands.arguments"@, true, "org.jspecify.annotations.NullMarked"@),
    {
        PackageInfoModel {
            package_name: "net.minecraft.commands.arguments",
            null_marked: true,
            annotation_type: "org.jspecify.annotations.NullMarked",
        }
    }

    pub fn package_name(&self) -> (r: &'static str)
        ensures
            r@ == self@.0,
    {
        self.package_name
    }

    pub fn is_null_marked(&self) -> (r: bool)
        ensures
            r == self@.1,
    {
        self.null_marked
    }

    pub fn annotation_type(&self) -> (r: &'static str)
        ensures
            r@ == self@.2,
    {
        self.annotation_type
    }
}

#[derive(Debug, Clone, PartialEq, Eq)]
pub struct EntityModel {
    id: String,
}

impl EntityModel {
    pub closed spec fn view(&self) -> Seq<char> {
        self.id@
    }

    pub fn new(id: &str) -> (r: Self)
        ensures
            r@ == id@,
    {
        EntityModel { id: id.to_owned() }
    }
}

#[derive(Debug, Clone, PartialEq, Eq)]
pub struct WaypointTransmitterModel {
    id: String,
}

impl WaypointTransmitterModel {
    pub closed spec fn view(&self) -> Seq<char> {
        self.id@
    }

    pub fn new(id: &str) -> (r: Self)
        ensures
            r@ == id@,
    {
        WaypointTransmitterModel { id: id.to_owned() }
    }

    pub fn id(&self) -> (r: &str)
        ensures
            r@ == self@,
    {
        self.id.as_str()
    }

    pub fn copy(&self) -> (r: Self)
        ensures
            r@ == self@,
    {
        WaypointTransmitterModel { id: self.id.clone() }
    }
}

#[derive(Debug, Clone, PartialEq, Eq)]
pub enum SelectedEntityModel {
    Waypoint(WaypointTransmitterModel),
    Other(EntityModel),
}

/// A selector that has already settled on the entity it finds.
#[derive(Debug, Clone, PartialEq, Eq)]
pub struct EntitySelectorModel {
    selected: SelectedEntityModel,
}

#[derive(Debug, Clone, Default, PartialEq, Eq)]
pub struct CommandSourceStackModel;

impl EntitySelectorModel {
    pub closed spec fn selected(&self) -> SelectedEntityModel {
        self.selected
    }

    pub fn new(selected: SelectedEntityModel) -> (r: Self)
        ensures
            r.selected() == selected,
    {
        EntitySelectorModel { selected }
    }

    pub fn find_single_entity(&self, source: &CommandSourceStackModel) -> (r: &SelectedEntityModel)
        ensures
            *r == self.selected(),
    {
        &self.selected
    }
}

/// The selectors of a command, by argument name.
pub struct CommandContextModel {
    selectors: ArgMap<EntitySelectorModel>,
    source: CommandSourceStackModel,
}

impl CommandContextModel {
    pub closed spec fn view(&self) -> Map<Seq<char>, EntitySelectorModel> {
        self.selectors@
    }

    pub fn new() -> (r: Self)
        ensures
            r@ == Map::<Seq<char>, EntitySelectorModel>::empty(),
    {
        CommandContextModel { selectors: ArgMap::new(), source: CommandSourceStackModel }
    }

    pub fn with_selector(self, name: &str, selector: EntitySelectorModel) -> (r: Self)
        ensures
            r@ == self@.insert(name@, selector),
    {
        let mut selectors = self.selectors;
        selectors.insert(name.to_owned(), selector);
        CommandContextModel { selectors, source: self.source }
    }
}

impl Default for CommandContextModel {
    fn default() -> (r: Self)
        ensures
            r@ == Map::<Seq<char>, EntitySelectorModel>::empty(),
    {
        CommandContextModel::new()
    }
}

#[derive(Debug, Clone, PartialEq, Eq)]
pub enum WaypointArgumentError {
    MissingArgument { name: String },
    NotAWaypoint,
}

/// The waypoint that the named selector finds: the argument must be there,
/// and the entity it finds must be a waypoint.
pub fn get_waypoint(context: &CommandContextModel, name: &str) -> (r: Result<WaypointTransmitterModel, WaypointArgumentError>)
    ensures
        !context@.contains_key(name@) ==> (r matches Err(WaypointArgumentError::MissingArgument { name: n }) && n@ == name@),
        context@.contains_key(name@) ==> match context@[name@].selected() {
            SelectedEntityModel::Waypoint(w) => (r matches Ok(x) && x@ == w@),
            SelectedEntityModel::Other(_) => r == Err::<WaypointTransmitterModel, WaypointArgumentError>(WaypointArgumentError::NotAWaypoint),
        },
{
    let selector = match context.selectors.get(name) {
        Some(s) => s,
        None => {
            return Err(WaypointArgumentError::MissingArgument { name: name.to_owned() });
        },
    };
    match selector.find_single_entity(&context.source) {
        SelectedEntityModel::Waypoint(waypoint) => Ok(waypoint.copy()),
        SelectedEntityModel::Other(_entity) => Err(WaypointArgumentError::NotAWaypoint),
    }
}

} // verus!

//! Command feedback: the translatable message of a result, with its
//! arguments in the order the key names them, and where it is sent: to the
//! source, to the other operators, and to the server log.

use vstd::prelude::*;
use crate::chat_component::{Component, ComponentArgument, ComponentView, ArgView, Style, TextColor, arg_view};
use crate::command::CommandResult;
use crate::localization_keys::{assert_known_emitted_key, key_table, names_view, MessageKeyFamily};
use crate::search::first_index;
use crate::text::{push_str, str_eq};

verus! {

/// Who ran the command and the rules that decide who hears of it.
#[derive(Debug, Clone, PartialEq, Eq)]
pub struct CommandFeedbackContext {
    pub source_name: String,
    pub source_accepts_feedback: bool,
    pub source_silent: bool,
    pub source_informs_admins: bool,
    pub source_is_server: bool,
    pub send_command_feedback_rule: bool,
    pub log_admin_commands_rule: bool,
    pub admins: Vec<String>,
}

impl CommandFeedbackContext {
    /// The server console: it hears its own feedback and tells operators.
    pub fn console() -> (r: Self)
        ensures
            r.source_name@ == "Server"@,
            r.source_accepts_feedback,
            !r.source_silent,
            r.source_informs_admins,
            r.source_is_server,
            r.send_command_feedback_rule,
            r.log_admin_commands_rule,
            r.admins@.len() == 0,
    {
        CommandFeedbackContext {
            source_name: "Server".to_owned(),
            source_accepts_feedback: true,
            source_silent: false,
            source_informs_admins: true,
            source_is_server: true,
            send_command_feedback_rule: true,
            log_admin_commands_rule: true,
            admins: Vec::new(),
        }
    }

    /// The console as source, telling operators only when enabled.
    pub fn with_console_broadcast(self, enabled: bool) -> (r: Self)
        ensures
            r.source_name@ == "Server"@,
            r.source_is_server,
            r.source_informs_admins == enabled,
            r.source_accepts_feedback == self.source_accepts_feedback,
            r.source_silent == self.source_silent,
            r.send_command_feedback_rule == self.send_command_feedback_rule,
            r.log_admin_commands_rule == self.log_admin_commands_rule,
            r.admins == self.admins,
    {
        CommandFeedbackContext { source_name: "Server".to_owned(), source_is_server: true, source_informs_admins: enabled, ..self }
    }

    /// Remote console as source, telling operators only when enabled.
    pub fn with_rcon_broadcast(self, enabled: bool) -> (r: Self)
        ensures
            r.source_name@ == "Rcon"@,
            !r.source_is_server,
            r.source_informs_admins == enabled,
            r.source_accepts_feedback == self.source_accepts_feedback,
            r.source_silent == self.source_silent,
            r.send_command_feedback_rule == self.send_command_feedback_rule,
            r.log_admin_commands_rule == self.log_admin_commands_rule,
            r.admins == self.admins,
    {
        CommandFeedbackContext { source_name: "Rcon".to_owned(), source_is_server: false, source_informs_admins: enabled, ..self }
    }
}

/// A named argument of a feedback message.
#[derive(Debug, Clone, PartialEq, Eq)]
pub struct FeedbackArgument {
    pub name: &'static str,
    pub value: ComponentArgument,
}

#[derive(Debug, Clone, PartialEq, Eq)]
pub enum FeedbackTarget {
    Source,
    Admin(String),
    Log,
}

/// Where a packet goes, with names as characters.
pub enum TargetView {
    Source,
    Admin(Seq<char>),
    Log,
}

impl FeedbackTarget {
    pub open spec fn view(&self) -> TargetView {
        match self {
            FeedbackTarget::Source => TargetView::Source,
            FeedbackTarget::Admin(name) => TargetView::Admin(name@),
            FeedbackTarget::Log => TargetView::Log,
        }
    }
}

#[derive(Debug, Clone, PartialEq, Eq)]
pub struct CommandFeedbackPacket {
    pub target: FeedbackTarget,
    pub overlay: bool,
    pub component: Component,
}

/// The value of a packet: where it goes, whether it is an overlay, and
/// what it says.
pub open spec fn packet_view(p: CommandFeedbackPacket) -> (TargetView, bool, ComponentView) {
    (p.target@, p.overlay, p.component.deep())
}

pub open spec fn packets_view(ps: Seq<CommandFeedbackPacket>) -> Seq<(TargetView, bool, ComponentView)> {
    ps.map_values(|p: CommandFeedbackPacket| packet_view(p))
}

#[derive(Debug, Clone, PartialEq, Eq)]
pub struct CommandFeedbackPlan {
    pub success_count: i32,
    pub packets: Vec<CommandFeedbackPacket>,
}

pub open spec fn named(name: Seq<char>) -> spec_fn(FeedbackArgument) -> bool {
    |a: FeedbackArgument| a.name@ == name
}

/// The value given for the name: the first argument with that name, or
/// the visible placeholder `<name>`.
pub open spec fn value_for(args: Seq<FeedbackArgument>, name: Seq<char>) -> ArgView {
    let i = first_index(args, named(name));
    if i >= 0 { arg_view(args[i].value) } else { ArgView::String("<"@ + name + ">"@) }
}

pub open spec fn values_for(args: Seq<FeedbackArgument>, names: Seq<Seq<char>>) -> Seq<ArgView> {
    names.map_values(|n: Seq<char>| value_for(args, n))
}

/// The feedback message of a result: the key's translation with the values
/// in the order the key names them; a key that is not known, or not a
/// command's, is an error.
pub open spec fn formatted(key: Seq<char>, args: Seq<FeedbackArgument>) -> Result<ComponentView, Seq<char>> {
    match key_table(key) {
        None => Err("unknown message key: "@ + key),
        Some(info) => if info.0 != MessageKeyFamily::Command {
            Err("feedback key is not a command key: "@ + key)
        } else {
            Ok(ComponentView::Translatable(key, values_for(args, info.1)))
        },
    }
}

/// What operators are told: `chat.type.admin` with the source's name and
/// the message.
pub open spec fn admin_view(source: Seq<char>, c: ComponentView) -> ComponentView {
    ComponentView::Translatable("chat.type.admin"@, seq![ArgView::String(source), ArgView::Component(Box::new(c))])
}

/// A packet for each operator other than the source, in order.
pub open spec fn admin_packets(admins: Seq<String>, source: Seq<char>, c: ComponentView) -> Seq<(TargetView, bool, ComponentView)>
    decreases admins.len(),
{
    if admins.len() == 0 {
        seq![]
    } else {
        let rest = admin_packets(admins.drop_last(), source, c);
        if admins.last()@ == source { rest } else { rest.push((TargetView::Admin(admins.last()@), false, c)) }
    }
}

/// Where feedback goes: to a source that takes feedback and is not silent;
/// and, for a result told to operators by a source that informs them and is
/// not silent, to the other operators when the feedback rule is on and to
/// the log when the source is not the server and the logging rule is on.
pub open spec fn planned(broadcast: bool, context: CommandFeedbackContext, c: ComponentView) -> Seq<(TargetView, bool, ComponentView)> {
    let own = if context.source_accepts_feedback && !context.source_silent {
        seq![(TargetView::Source, false, c)]
    } else {
        seq![]
    };
    if broadcast && context.source_informs_admins && !context.source_silent {
        let a = admin_view(context.source_name@, c);
        let admins = if context.send_command_feedback_rule { admin_packets(context.admins@, context.source_name@, a) } else { seq![] };
        let log = if !context.source_is_server && context.log_admin_commands_rule { seq![(TargetView::Log, false, a)] } else { seq![] };
        own + admins + log
    } else {
        own
    }
}

/// The feedback message of the result, with the arguments in the key's order.
pub fn format_command_feedback(result: &CommandResult, args: &[FeedbackArgument]) -> (r: Result<Component, String>)
    ensures
        match formatted(result.feedback_key@, args@) {
            Ok(c) => r matches Ok(x) && x.deep() == c,
            Err(m) => r matches Err(x) && x@ == m,
        },
{
    let key = match assert_known_emitted_key(result.feedback_key) {
        Ok(key) => key,
        Err(message) => return Err(message),
    };
    if key.family != MessageKeyFamily::Command {
        let mut message = "feedback key is not a command key: ".to_owned();
        push_str(&mut message, result.feedback_key);
        return Err(message);
    }
    let ghost names = names_view(key.args@);
    let mut ordered: Vec<ComponentArgument> = Vec::new();
    let mut i: usize = 0;
    while i < key.args.len()
        invariant
            0 <= i <= key.args@.len(),
            names == names_view(key.args@),
            crate::chat_component::args_view(ordered@) == values_for(args@, names).subrange(0, i as int),
        decreases key.args@.len() - i,
    {
        let name = key.args[i];
        let ghost p = named(name@);
        let mut j: usize = 0;
        proof {
            crate::search::lemma_first_index_from(args@, p, 0);
        }
        let mut found: Option<usize> = None;
        while j < args.len()
            invariant
                0 <= j <= args@.len(),
                found is None,
                crate::search::first_index_from(args@, p, j as int) == first_index(args@, p),
            decreases args@.len() - j,
        {
            if str_eq(args[j].name, name) {
                found = Some(j);
                break;
            }
            proof {
                crate::search::lemma_first_index_from(args@, p, j as int);
            }
            j = j + 1;
        }
        proof {
            crate::search::lemma_first_index_from(args@, p, j as int);
        }
        let value = match found {
            Some(k) => args[k].value.clone(),
            None => {
                let mut text = "<".to_owned();
                push_str(&mut text, name);
                push_str(&mut text, ">");
                ComponentArgument::String(text)
            },
        };
        let ghost before = ordered@;
        ordered.push(value);
        proof {
            assert(names[i as int] == name@);
            assert(values_for(args@, names)[i as int] == value_for(args@, name@));
            assert(ordered@.drop_last() =~= before);
            assert(crate::chat_component::args_view(ordered@) =~= crate::chat_component::args_view(before).push(arg_view(value)));
            assert(values_for(args@, names).subrange(0, i + 1) =~= values_for(args@, names).subrange(0, i as int).push(value_for(args@, name@)));
        }
        i = i + 1;
    }
    assert(values_for(args@, names).subrange(0, names.len() as int) =~= values_for(args@, names));
    Ok(Component::translatable(result.feedback_key.to_owned(), ordered))
}

fn admin_broadcast_component(source_name: &str, component: Component) -> (r: Component)
    ensures
        r.deep() == admin_view(source_name@, component.deep()),
{
    let mut args: Vec<ComponentArgument> = Vec::new();
    args.push(ComponentArgument::String(source_name.to_owned()));
    args.push(ComponentArgument::Component(Box::new(component)));
    let r = Component::translatable("chat.type.admin".to_owned(), args);
    proof {
        crate::chat_component::lemma_args_view(args@);
        assert(crate::chat_component::args_view(args@) =~= seq![ArgView::String(source_name@), ArgView::Component(Box::new(component.deep()))]);
    }
    r
}

/// The feedback of a result and where it goes.
pub fn route_command_feedback(result: &CommandResult, args: &[FeedbackArgument], context: &CommandFeedbackContext)
    -> (r: Result<CommandFeedbackPlan, String>)
    ensures
        match formatted(result.feedback_key@, args@) {
            Ok(c) => r matches Ok(plan) && plan.success_count == result.success_count
                && packets_view(plan.packets@) == planned(result.broadcast_to_admins, *context, c),
            Err(m) => r matches Err(x) && x@ == m,
        },
{
    let component = match format_command_feedback(result, args) {
        Ok(component) => component,
        Err(message) => return Err(message),
    };
    let ghost c = component.deep();
    let mut packets: Vec<CommandFeedbackPacket> = Vec::new();
    if context.source_accepts_feedback && !context.source_silent {
        packets.push(CommandFeedbackPacket { target: FeedbackTarget::Source, overlay: false, component: component.clone() });
    }
    let ghost own = packets_view(packets@);
    assert(own =~= (if context.source_accepts_feedback && !context.source_silent {
        seq![(TargetView::Source, false, c)]
    } else {
        seq![]
    }));
    if result.broadcast_to_admins && context.source_informs_admins && !context.source_silent {
        let admin_component = admin_broadcast_component(context.source_name.as_str(), component.clone());
        let ghost a = admin_component.deep();
        if context.send_command_feedback_rule {
            let mut i: usize = 0;
            while i < context.admins.len()
                invariant
                    0 <= i <= context.admins@.len(),
                    admin_component.deep() == a,
                    packets_view(packets@) == own + admin_packets(context.admins@.subrange(0, i as int), context.source_name@, a),
                decreases context.admins@.len() - i,
            {
                let admin = &context.admins[i];
                let ghost before = packets_view(packets@);
                assert(context.admins@.subrange(0, i + 1).drop_last() =~= context.admins@.subrange(0, i as int));
                if !str_eq(admin.as_str(), context.source_name.as_str()) {
                    packets.push(CommandFeedbackPacket {
                        target: FeedbackTarget::Admin(admin.clone()),
                        overlay: false,
                        component: admin_component.clone(),
                    });
                    assert(packets_view(packets@) =~= before.push((TargetView::Admin(admin@), false, a)));
                }
                i = i + 1;
            }
            assert(context.admins@.subrange(0, context.admins@.len() as int) =~= context.admins@);
        }
        let ghost mid = packets_view(packets@);
        if !context.source_is_server && context.log_admin_commands_rule {
            packets.push(CommandFeedbackPacket { target: FeedbackTarget::Log, overlay: false, component: admin_component });
            assert(packets_view(packets@) =~= mid.push((TargetView::Log, false, a)));
        }
        assert(packets_view(packets@) =~= planned(result.broadcast_to_admins, *context, c));
    }
    Ok(CommandFeedbackPlan { success_count: result.success_count, packets })
}

pub fn arg_string(name: &'static str, value: &str) -> (r: FeedbackArgument)
    ensures
        r.name == name,
        arg_view(r.value) == ArgView::String(value@),
{
    FeedbackArgument { name, value: ComponentArgument::String(value.to_owned()) }
}

pub fn arg_number(name: &'static str, value: i32) -> (r: FeedbackArgument)
    ensures
        r.name == name,
        arg_view(r.value) == ArgView::Number(value),
{
    FeedbackArgument { name, value: ComponentArgument::Number(value) }
}

pub fn arg_component(name: &'static str, value: Component) -> (r: FeedbackArgument)
    ensures
        r.name == name,
        arg_view(r.value) == ArgView::Component(Box::new(value.deep())),
{
    FeedbackArgument { name, value: ComponentArgument::Component(Box::new(value)) }
}

/// Feedback is gray on success and red on failure.
pub fn feedback_style(success: bool) -> (r: Style)
    ensures
        r.color == Some(if success { TextColor::Gray } else { TextColor::Red }),
{
    let color = if success { TextColor::Gray } else { TextColor::Red };
    Style::empty().with_color(color)
}

} // verus!

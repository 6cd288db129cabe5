//! The message keys that commands emit, with their family and the names of
//! their arguments in order.

use vstd::prelude::*;
use crate::text::{str_eq, push_str};

verus! {

#[derive(Debug, Clone, Copy, PartialEq, Eq, Structural)]
pub enum MessageKeyFamily {
    Command,
    Chat,
    Death,
}

/// A known key: its family and its argument names, in order.
#[derive(Debug, Clone, PartialEq, Eq)]
pub struct KnownKeyModel {
    pub family: MessageKeyFamily,
    pub args: Vec<&'static str>,
}

/// The argument names, as characters.
pub open spec fn names_view(args: Seq<&'static str>) -> Seq<Seq<char>> {
    args.map_values(|a: &'static str| a@)
}

/// The keys that are known, with their family and argument names.
pub open spec fn key_table(key: Seq<char>) -> Option<(MessageKeyFamily, Seq<Seq<char>>)> {
    if key == "commands.save.success"@ {
        Some((MessageKeyFamily::Command, seq![]))
    } else if key == "commands.kick.success"@ {
        Some((MessageKeyFamily::Command, seq!["player"@, "reason"@]))
    } else if key == "commands.list.players"@ {
        Some((MessageKeyFamily::Command, seq!["count"@, "max"@, "players"@]))
    } else if key == "chat.type.admin"@ {
        Some((MessageKeyFamily::Chat, seq!["source"@, "message"@]))
    } else if key == "death.attack.generic"@ {
        Some((MessageKeyFamily::Death, seq!["victim"@]))
    } else {
        None
    }
}

fn known(family: MessageKeyFamily, args: &[&'static str]) -> (r: KnownKeyModel)
    ensures
        r.family == family,
        names_view(r.args@) == names_view(args@),
{
    let mut out: Vec<&'static str> = Vec::new();
    let mut i: usize = 0;
    while i < args.len()
        invariant
            0 <= i <= args@.len(),
            out@ == args@.subrange(0, i as int),
        decreases args@.len() - i,
    {
        out.push(args[i]);
        i = i + 1;
        assert(out@ =~= args@.subrange(0, i as int));
    }
    assert(args@.subrange(0, args@.len() as int) =~= args@);
    KnownKeyModel { family, args: out }
}

/// The key's family and argument names; a key that is not known is an error.
pub fn assert_known_emitted_key(key: &str) -> (r: Result<KnownKeyModel, String>)
    ensures
        match key_table(key@) {
            Some(info) => r matches Ok(k) && k.family == info.0 && names_view(k.args@) == info.1,
            None => r matches Err(message) && message@ == "unknown message key: "@ + key@,
        },
{
    if str_eq(key, "commands.save.success") {
        let r = known(MessageKeyFamily::Command, &[]);
        assert(names_view(r.args@) =~= seq![]);
        Ok(r)
    } else if str_eq(key, "commands.kick.success") {
        let names: [&'static str; 2] = ["player", "reason"];
        let r = known(MessageKeyFamily::Command, &names);
        assert(names_view(r.args@) =~= seq!["player"@, "reason"@]);
        Ok(r)
    } else if str_eq(key, "commands.list.players") {
        let names: [&'static str; 3] = ["count", "max", "players"];
        let r = known(MessageKeyFamily::Command, &names);
        assert(names_view(r.args@) =~= seq!["count"@, "max"@, "players"@]);
        Ok(r)
    } else if str_eq(key, "chat.type.admin") {
        let names: [&'static str; 2] = ["source", "message"];
        let r = known(MessageKeyFamily::Chat, &names);
        assert(names_view(r.args@) =~= seq!["source"@, "message"@]);
        Ok(r)
    } else if str_eq(key, "death.attack.generic") {
        let names: [&'static str; 1] = ["victim"];
        let r = known(MessageKeyFamily::Death, &names);
        assert(names_view(r.args@) =~= seq!["victim"@]);
        Ok(r)
    } else {
        let mut message = "unknown message key: ".to_owned();
        push_str(&mut message, key);
        Err(message)
    }
}

} // verus!

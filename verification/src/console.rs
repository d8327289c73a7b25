//! The command surface: lines typed by the user, and the arguments of the
//! program, turned into commands.

use crate::events::{UserCommand, UserCommandView};
use crate::mailbox::text_of;
use crate::sorted::texts;
use crate::text::{
    chars_of, field, field_of, same_text, split_once, split_text, strip_prefix, stripped,
};
use vstd::prelude::*;
use vstd::string::StringExecFns;

verus! {

/// A message of several lines that the user is typing.
#[derive(Clone, Debug, PartialEq, Eq)]
pub struct Table {
    /// The peer that the message is for; all peers where none is named.
    pub peer: Option<String>,
    /// The lines typed so far, each with its line end.
    pub message: String,
}

/// A message in the making as a mathematical value.
pub struct TableView {
    pub peer: Option<Seq<char>>,
    pub message: Seq<char>,
}

impl View for Table {
    type V = TableView;

    open spec fn view(&self) -> TableView {
        TableView { peer: text_of(self.peer), message: self.message@ }
    }
}

/// The view of an optional message in the making.
pub open spec fn table_view(t: Option<Table>) -> Option<TableView> {
    match t {
        Some(t) => Some(t@),
        None => None,
    }
}

/// The view of an optional command.
pub open spec fn command_view(c: Option<UserCommand>) -> Option<UserCommandView> {
    match c {
        Some(c) => Some(c@),
        None => None,
    }
}

/// The query that follows `show `, if it names one.
pub open spec fn query_of(what: Seq<char>) -> Option<UserCommandView> {
    if what == "alias"@ {
        Some(UserCommandView::GetAlias)
    } else if what == "aliases"@ {
        Some(UserCommandView::GetAliases)
    } else if what == "discovered"@ {
        Some(UserCommandView::GetDiscovered)
    } else if what == "connected"@ {
        Some(UserCommandView::GetConnected)
    } else if what == "rejected"@ {
        Some(UserCommandView::GetRejected)
    } else {
        None
    }
}

/// The command that a line stands for, if it stands for one. The first word
/// decides; `sendto` and `upgrade` take a peer and, after a blank, the rest.
pub open spec fn command_of(line: Seq<char>) -> Option<UserCommandView> {
    if let Some(rest) = stripped(line, "send "@) {
        Some(UserCommandView::SendMsg { peer: None, message: rest })
    } else if let Some(rest) = stripped(line, "sendto "@) {
        match split_once(rest, ' ') {
            Some((peer, message)) => Some(UserCommandView::SendMsg { peer: Some(peer), message }),
            None => None,
        }
    } else if let Some(rest) = stripped(line, "whitelist "@) {
        Some(UserCommandView::Whitelist(rest))
    } else if let Some(rest) = stripped(line, "authorize "@) {
        Some(UserCommandView::Authorize(rest))
    } else if let Some(rest) = stripped(line, "alias "@) {
        Some(UserCommandView::Alias(rest))
    } else if let Some(rest) = stripped(line, "upgrade self "@) {
        Some(UserCommandView::UpgradeSelf(rest))
    } else if let Some(rest) = stripped(line, "upgrade "@) {
        match split_once(rest, ' ') {
            Some((target, address)) => Some(UserCommandView::Upgrade(target, address)),
            None => None,
        }
    } else if let Some(rest) = stripped(line, "serve stop"@) {
        Some(UserCommandView::ServeStop)
    } else if let Some(rest) = stripped(line, "serve "@) {
        Some(UserCommandView::Serve(rest))
    } else if let Some(rest) = stripped(line, "show "@) {
        query_of(rest)
    } else {
        None
    }
}

/// The message in the making after a line: while one is being typed, an
/// empty line ends it and any other line is added to it with a line end;
/// else `table ` starts one, for the peer named after it, if any.
pub open spec fn table_after(table: Option<TableView>, line: Seq<char>) -> Option<TableView> {
    match table {
        Some(t) => if line.len() == 0 {
            None
        } else {
            Some(TableView { peer: t.peer, message: t.message + line + "\n"@ })
        },
        None => match stripped(line, "table "@) {
            Some(rest) => Some(
                TableView {
                    peer: if rest.len() == 0 {
                        None
                    } else {
                        Some(rest)
                    },
                    message: Seq::empty(),
                },
            ),
            None => None,
        },
    }
}

/// The command that a line gives rise to: the message in the making when an
/// empty line ends it; nothing while one is being typed or started; else the
/// command that the line stands for.
pub open spec fn command_after(table: Option<TableView>, line: Seq<char>) -> Option<
    UserCommandView,
> {
    match table {
        Some(t) => if line.len() == 0 {
            Some(UserCommandView::SendMsg { peer: t.peer, message: t.message })
        } else {
            None
        },
        None => if stripped(line, "table "@) is Some {
            None
        } else {
            command_of(line)
        },
    }
}

/// The query that follows `show `, if it names one.
fn parse_query(what: &str) -> (r: Option<UserCommand>)
    ensures
        command_view(r) == query_of(what@),
{
    if same_text(what, "alias") {
        Some(UserCommand::GetAlias)
    } else if same_text(what, "aliases") {
        Some(UserCommand::GetAliases)
    } else if same_text(what, "discovered") {
        Some(UserCommand::GetDiscovered)
    } else if same_text(what, "connected") {
        Some(UserCommand::GetConnected)
    } else if same_text(what, "rejected") {
        Some(UserCommand::GetRejected)
    } else {
        None
    }
}

/// The command that a line stands for, if it stands for one.
pub fn parse_command(line: &str) -> (r: Option<UserCommand>)
    ensures
        command_view(r) == command_of(line@),
{
    let chars = chars_of(line);
    if let Some(rest) = strip_prefix(line, &chars, "send ") {
        return Some(UserCommand::SendMsg { peer: None, message: rest });
    }
    if let Some(rest) = strip_prefix(line, &chars, "sendto ") {
        return match split_text(rest.as_str(), ' ') {
            Some((peer, message)) => Some(UserCommand::SendMsg { peer: Some(peer), message }),
            None => None,
        };
    }
    if let Some(rest) = strip_prefix(line, &chars, "whitelist ") {
        return Some(UserCommand::Whitelist(rest));
    }
    if let Some(rest) = strip_prefix(line, &chars, "authorize ") {
        return Some(UserCommand::Authorize(rest));
    }
    if let Some(rest) = strip_prefix(line, &chars, "alias ") {
        return Some(UserCommand::Alias(rest));
    }
    if let Some(rest) = strip_prefix(line, &chars, "upgrade self ") {
        return Some(UserCommand::UpgradeSelf(rest));
    }
    if let Some(rest) = strip_prefix(line, &chars, "upgrade ") {
        return match split_text(rest.as_str(), ' ') {
            Some((target, address)) => Some(UserCommand::Upgrade(target, address)),
            None => None,
        };
    }
    if let Some(_rest) = strip_prefix(line, &chars, "serve stop") {
        return Some(UserCommand::ServeStop);
    }
    if let Some(rest) = strip_prefix(line, &chars, "serve ") {
        return Some(UserCommand::Serve(rest));
    }
    if let Some(rest) = strip_prefix(line, &chars, "show ") {
        return parse_query(rest.as_str());
    }
    None
}

/// Takes a line typed by the user: keeps the message in the making in
/// `table`, and returns the command to carry out, if the line completes one.
pub fn handle_user_input(table: &mut Option<Table>, msg: String) -> (r: Option<UserCommand>)
    ensures
        table_view(*final(table)) == table_after(table_view(*old(table)), msg@),
        command_view(r) == command_after(table_view(*old(table)), msg@),
{
    let current = table.take();
    match current {
        Some(t) => {
            if msg.as_str().is_empty() {
                Some(UserCommand::SendMsg { peer: t.peer, message: t.message })
            } else {
                let mut message = t.message;
                message.append(msg.as_str());
                message.append("\n");
                *table = Some(Table { peer: t.peer, message });
                None
            }
        },
        None => {
            let chars = chars_of(msg.as_str());
            match strip_prefix(msg.as_str(), &chars, "table ") {
                Some(rest) => {
                    let peer = if rest.as_str().is_empty() {
                        None
                    } else {
                        Some(rest)
                    };
                    *table = Some(Table { peer, message: String::new() });
                    None
                },
                None => parse_command(msg.as_str()),
            }
        },
    }
}

/// The path that follows the last `--private-key` among the arguments that
/// are read as flags; `found` where there is none. The text after the flag
/// is its value and is not read as a flag itself.
pub open spec fn key_path(args: Seq<Seq<char>>, found: Option<Seq<char>>) -> Option<Seq<char>>
    decreases args.len(),
{
    if args.len() == 0 {
        found
    } else if args[0] == "--private-key"@ {
        if args.len() >= 2 {
            key_path(args.skip(2), Some(args[1]))
        } else {
            found
        }
    } else {
        key_path(args.skip(1), found)
    }
}

/// The path of the private key that the arguments of the program name.
pub fn private_key_arg(args: &Vec<String>) -> (r: Option<String>)
    ensures
        text_of(r) == key_path(texts(args@), None),
{
    let mut found: Option<String> = None;
    let mut i: usize = 0;
    assert(texts(args@).skip(0) =~= texts(args@));
    while i < args.len()
        invariant
            i <= args@.len(),
            key_path(texts(args@), None) == key_path(texts(args@).skip(i as int), text_of(found)),
        decreases args@.len() - i,
    {
        let ghost rest = texts(args@).skip(i as int);
        assert(rest[0] == args@[i as int]@);
        if same_text(args[i].as_str(), "--private-key") {
            if i + 1 < args.len() {
                assert(rest[1] == args@[i + 1]@);
                assert(rest.skip(2) =~= texts(args@).skip(i + 2));
                found = Some(args[i + 1].clone());
                i += 2;
            } else {
                return found;
            }
        } else {
            assert(rest.skip(1) =~= texts(args@).skip(i + 1));
            i += 1;
        }
    }
    found
}

/// The host of a listen address such as `/ip4/10.0.0.1/tcp/4001`: its third
/// field between slashes; none where the address has fewer fields.
pub fn listen_host(address: &str) -> (r: Option<String>)
    ensures
        text_of(r) == field(address@, '/', 2),
{
    field_of(address, '/', 2)
}

} // verus!

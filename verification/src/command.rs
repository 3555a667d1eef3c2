//! The commands that a message can spell out.

use vstd::prelude::*;
use crate::text::{
    eq_ignoring_ascii_case, find_char, index_of, same_ignoring_ascii_case, same_text,
};

verus! {

/// A command to the bot.
#[derive(Debug, PartialEq)]
pub enum Command {
    /// `/start`: asks for the list of commands.
    Start,
    /// `/reg <key>`: asks to be registered; holds the key.
    Reg(String),
    /// `/top`: asks for the ranking.
    Top,
}

/// A command as characters.
pub enum Order {
    Start,
    Reg(Seq<char>),
    Top,
}

impl View for Command {
    type V = Order;

    open spec fn view(&self) -> Order {
        match self {
            Command::Start => Order::Start,
            Command::Reg(key) => Order::Reg(key@),
            Command::Top => Order::Top,
        }
    }
}

/// The part of a text before its first `c`; all of it where it holds none.
pub open spec fn before_first(text: Seq<char>, c: char) -> Seq<char> {
    text.take(index_of(text, c))
}

/// The part of a text behind its first `c`, if it holds one.
pub open spec fn behind_first(text: Seq<char>, c: char) -> Option<Seq<char>> {
    if index_of(text, c) < text.len() {
        Some(text.skip(index_of(text, c) + 1))
    } else {
        None
    }
}

/// The bot that a command word names behind its first `@`, up to the next
/// `@`, if it names one.
pub open spec fn addressee(head: Seq<char>) -> Option<Seq<char>> {
    match behind_first(head, '@') {
        Some(rest) => Some(before_first(rest, '@')),
        None => None,
    }
}

/// The arguments of a command: what stands behind the first space.
pub open spec fn arguments(text: Seq<char>) -> Seq<char> {
    match behind_first(text, ' ') {
        Some(rest) => rest,
        None => Seq::empty(),
    }
}

/// The command that `text` spells out for the bot `bot_name`.
///
/// The command word runs up to the first space. It is `/start`, `/reg` or
/// `/top`, and may name a bot behind an `@`: the command then counts only
/// if that is `bot_name`, whatever the case of `A` to `Z`. The key of
/// `/reg` is all that stands behind the first space.
pub open spec fn parsed(text: Seq<char>, bot_name: Seq<char>) -> Option<Order> {
    let head = before_first(text, ' ');
    let name = before_first(head, '@');
    if addressee(head) matches Some(bot) && !same_ignoring_ascii_case(bot, bot_name) {
        None
    } else if name == "/start"@ {
        Some(Order::Start)
    } else if name == "/reg"@ {
        Some(Order::Reg(arguments(text)))
    } else if name == "/top"@ {
        Some(Order::Top)
    } else {
        None
    }
}

/// The list of commands, as `/start` answers it.
pub open spec fn descriptions_text() -> Seq<char> {
    "*Описание команд*\n\n/start — Описание\n/reg — Активация бота\\.\n`/reg \\<Ключ активации\\>`\n/top — Топ"@
}

impl Command {
    /// Reads the command that `text` spells out for the bot `bot_name`, if
    /// it spells one.
    pub fn parse(text: &str, bot_name: &str) -> (command: Option<Command>)
        ensures
            match parsed(text@, bot_name@) {
                Some(order) => command matches Some(c) && c@ == order,
                None => command is None,
            },
    {
        let n: usize = text.unicode_len();
        let space: usize = find_char(text, ' ');
        let head = text.substring_char(0, space);
        assert(head@ =~= before_first(text@, ' '));
        let at: usize = find_char(head, '@');
        let name = head.substring_char(0, at);
        assert(name@ =~= before_first(head@, '@'));
        if at < space {
            let rest = head.substring_char(at + 1, space);
            assert(rest@ =~= head@.skip(at + 1));
            let end: usize = find_char(rest, '@');
            let bot = rest.substring_char(0, end);
            assert(bot@ =~= before_first(rest@, '@'));
            if !eq_ignoring_ascii_case(bot, bot_name) {
                return None;
            }
        }
        if same_text(name, "/start") {
            Some(Command::Start)
        } else if same_text(name, "/reg") {
            if space < n {
                let key = text.substring_char(space + 1, n);
                assert(key@ =~= text@.skip(space + 1));
                Some(Command::Reg(String::from_str(key)))
            } else {
                Some(Command::Reg(String::new()))
            }
        } else if same_text(name, "/top") {
            Some(Command::Top)
        } else {
            None
        }
    }

    /// The list of commands.
    pub fn descriptions() -> (text: String)
        ensures
            text@ == descriptions_text(),
    {
        String::from_str(
            "*Описание команд*\n\n/start — Описание\n/reg — Активация бота\\.\n`/reg \\<Ключ активации\\>`\n/top — Топ",
        )
    }
}

} // verus!

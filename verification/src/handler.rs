//! The reading of incoming messages and the wording of the answers.
//!
//! A message is a command (`/start`, `/reg`, `/top`), or free text. Free
//! text awards coins when it holds the keyword: each of its words with an
//! `@` mentions a member. Replies to earlier messages are not read.

use vstd::prelude::*;
use crate::award::{admitted, award_step, lemma_award_step, lemma_new_day, Award};
use crate::calendar::{today_text, CalendarDay};
use crate::chat_server::{ChatServer, LedgerError, Registration, Settings, UserData};
use crate::command::{descriptions_text, parsed, Command, Order};
use crate::leaderboard::{leaderboard, ranking_text};
use crate::table::{
    balance_of, can_count, can_credit, count_up, credit, has_id, has_user, id_position,
    lemma_id_position_is_first, lemma_position_is_first, lemma_register, position, quota_of,
    register, reset, well_formed, Person, Quota, Row,
};
use crate::text::{
    contains_ignoring_case, contains_text, escape_underscores, escaped, has_char, is_space,
    is_word, lemma_without_absent, lemma_without_leading, lemma_words_hold_what_the_text_holds,
    lemma_words_with_one_more, lowercase_of, remove_char, split_words, without_char, words,
};

verus! {

/// A message as the transport hands it over.
#[derive(Debug)]
pub struct IncomingMessage {
    /// The chat that the message was sent in. A private chat with the bot
    /// has a positive number.
    pub chat_id: i64,
    /// Who sent the message, if the transport names a sender.
    pub sender: Option<UserData>,
    /// The text of the message, if it has one.
    pub text: Option<String>,
}

/// A message as numbers and characters.
pub struct Incoming {
    pub chat_id: i64,
    pub sender: Option<Person>,
    pub text: Option<Seq<char>>,
}

impl View for IncomingMessage {
    type V = Incoming;

    open spec fn view(&self) -> Incoming {
        Incoming {
            chat_id: self.chat_id,
            sender: match self.sender {
                Some(sender) => Some(sender@),
                None => None,
            },
            text: match self.text {
                Some(text) => Some(text@),
                None => None,
            },
        }
    }
}

/// A message for the transport to send.
#[derive(Debug, PartialEq)]
pub enum Outgoing {
    /// An answer to the chat, in MarkdownV2.
    Chat { chat_id: i64, text: String },
    /// A plain note to one member.
    Private { user_id: u64, text: String },
}

/// A message to send, as numbers and characters.
pub enum Sent {
    Chat { chat_id: i64, text: Seq<char> },
    Private { user_id: u64, text: Seq<char> },
}

impl View for Outgoing {
    type V = Sent;

    open spec fn view(&self) -> Sent {
        match self {
            Outgoing::Chat { chat_id, text } => Sent::Chat { chat_id: *chat_id, text: text@ },
            Outgoing::Private { user_id, text } => Sent::Private {
                user_id: *user_id,
                text: text@,
            },
        }
    }
}

/// The messages of a vector as numbers and characters.
pub open spec fn sent(messages: Seq<Outgoing>) -> Seq<Sent> {
    messages.map_values(|message: Outgoing| message@)
}

/// Tells where to register.
pub open spec fn ask_private_text(bot: Seq<char>) -> Seq<char> {
    "Регистрация возможна через личное сообщение боту @"@ + bot
}

/// Tells that the key was wrong.
pub open spec fn wrong_key_text() -> Seq<char> {
    "*Регистрация НЕ выполнена*\\.\nКлюч задан неверно"@
}

/// Tells that the sender has no username.
pub open spec fn need_username_text() -> Seq<char> {
    "*Регистрация НЕ выполнена*\\.\nНеобходимо установить в профиле Имя пользователя\\(Username\\)\\.\nПри смене имени пользователя необходимо снова запустить команду регистрации\\."@
}

/// Tells that the registration is done.
pub open spec fn registered_text() -> Seq<char> {
    "Регистрация прошла успешно"@
}

/// Tells that the sender was registered before.
pub open spec fn already_registered_text() -> Seq<char> {
    "Вы уже зарегистрированны"@
}

/// Tells that the sender is not registered, and where to register.
pub open spec fn not_registered_text(bot: Seq<char>) -> Seq<char> {
    "*Вы НЕ зарегистрированны*\\.\nРегистрация возможна через личное сообщение боту @"@ + bot
}

/// Tells that nobody bears the mentioned username.
pub open spec fn unknown_user_line(name: Seq<char>) -> Seq<char> {
    "Пользователь @"@ + name + " не зарегистрирован"@
}

/// Tells that the mentioned member got a coin.
pub open spec fn awarded_line(name: Seq<char>, coin: Seq<char>) -> Seq<char> {
    "@"@ + name + " получил "@ + coin
}

/// Tells that the sender has given away all coins of the day.
pub open spec fn quota_line(coin: Seq<char>) -> Seq<char> {
    "Вы привысили максимальное количество "@ + coin + " в день"@
}

/// Tells a member who the coin came from.
pub open spec fn notice_text(coin: Seq<char>, sender: Seq<char>) -> Seq<char> {
    "Вам передали "@ + coin + " от @"@ + sender
}

/// The answer to the chat: the reply with its underscores escaped, or
/// nothing where the reply is empty.
pub open spec fn chat_reply(chat_id: i64, reply: Seq<char>) -> Seq<Sent> {
    if reply.len() == 0 {
        Seq::empty()
    } else {
        seq![Sent::Chat { chat_id, text: escaped(reply) }]
    }
}

/// How far the words of a message have been worked through.
pub struct Pass {
    pub table: Seq<Row>,
    /// The answer to the chat so far.
    pub reply: Seq<char>,
    /// The notes to members so far.
    pub notices: Seq<Sent>,
    /// The error that ended the pass, if one did.
    pub failure: Option<LedgerError>,
}

/// The pass before the first word.
pub open spec fn start_of_pass(table: Seq<Row>) -> Pass {
    Pass { table, reply: Seq::empty(), notices: Seq::empty(), failure: None }
}

/// The pass after one more word.
///
/// A word with an `@` mentions the username that is left when every `@`
/// is taken out. Each mention is awarded on its own and adds its line to
/// the reply; a coin given in a private chat also adds a note to the one
/// who got it. After an error no further word counts.
pub open spec fn after_word(
    pass: Pass,
    settings: Settings,
    sender: Seq<char>,
    private: bool,
    word: Seq<char>,
    today: Seq<char>,
) -> Pass {
    if pass.failure is Some || !word.contains('@') {
        pass
    } else {
        let name = without_char(word, '@');
        let step = award_step(
            pass.table,
            settings.max_by_day_coins,
            sender,
            settings.bot_username,
            name,
            today,
        );
        match step.result {
            Err(e) => Pass { table: step.table, failure: Some(e), ..pass },
            Ok(Award::NotRegistered) => Pass {
                table: step.table,
                reply: pass.reply + "\n"@ + unknown_user_line(name),
                ..pass
            },
            Ok(Award::Excluded) => Pass { table: step.table, ..pass },
            Ok(Award::Given { recipient_id }) => Pass {
                table: step.table,
                reply: pass.reply + "\n"@ + awarded_line(name, settings.coin),
                notices: if private {
                    pass.notices.push(
                        Sent::Private {
                            user_id: recipient_id,
                            text: notice_text(settings.coin, sender),
                        },
                    )
                } else {
                    pass.notices
                },
                ..pass
            },
            Ok(Award::QuotaExceeded) => Pass {
                table: step.table,
                reply: pass.reply + "\n"@ + quota_line(settings.coin),
                ..pass
            },
        }
    }
}

/// The pass after the given words, from left to right.
pub open spec fn after_words(
    pass: Pass,
    settings: Settings,
    sender: Seq<char>,
    private: bool,
    list: Seq<Seq<char>>,
    today: Seq<char>,
) -> Pass
    decreases list.len(),
{
    if list.len() == 0 {
        pass
    } else {
        after_word(
            after_words(pass, settings, sender, private, list.drop_last(), today),
            settings,
            sender,
            private,
            list.last(),
            today,
        )
    }
}

/// A pass that an error has ended stays as it is, whatever words follow.
pub proof fn lemma_failure_ends_pass(
    pass: Pass,
    settings: Settings,
    sender: Seq<char>,
    private: bool,
    list: Seq<Seq<char>>,
    today: Seq<char>,
    upto: int,
)
    requires
        0 <= upto <= list.len(),
        after_words(pass, settings, sender, private, list.take(upto), today).failure is Some,
    ensures
        after_words(pass, settings, sender, private, list, today) == after_words(
            pass,
            settings,
            sender,
            private,
            list.take(upto),
            today,
        ),
    decreases list.len(),
{
    if upto == list.len() {
        assert(list.take(upto) =~= list);
    } else {
        assert(list.drop_last().take(upto) =~= list.take(upto));
        lemma_failure_ends_pass(pass, settings, sender, private, list.drop_last(), today, upto);
    }
}

/// The table after a message, and what is to be sent.
pub struct Handled {
    pub table: Seq<Row>,
    pub result: Result<Seq<Sent>, LedgerError>,
}

/// A message that changes nothing and is answered with `reply`.
pub open spec fn answered(table: Seq<Row>, chat_id: i64, reply: Seq<char>) -> Handled {
    Handled { table, result: Ok(chat_reply(chat_id, reply)) }
}

/// A message that needs a sender and names none: nothing changes, and
/// the message ends with an error.
pub open spec fn without_sender(table: Seq<Row>) -> Handled {
    Handled { table, result: Err(LedgerError::NoSender) }
}

/// Whether `/reg` with the key `key` may register: any key where the
/// server asks for none, otherwise the key that the server asks for.
pub open spec fn key_accepted(wanted: Option<Seq<char>>, key: Seq<char>) -> bool {
    match wanted {
        Some(asked) => key == asked,
        None => true,
    }
}

/// Tells what a registration did.
pub open spec fn registration_text(did: Registration) -> Seq<char> {
    match did {
        Registration::Created => registered_text(),
        Registration::AlreadyExists => already_registered_text(),
    }
}

/// What the registration of `sender` comes to on the day `today`.
///
/// The sender needs a username. A sender whose identity has a row is
/// registered again: the row bears the sender's names from now on and
/// keeps its coins, its daily count and its day, and no row is added. The
/// answer says that the sender was registered already, also where the
/// username is a new one. A sender without a row gets one, unless another
/// identity bears the username: then nothing changes, and the answer is
/// that the sender is registered already.
pub open spec fn registration_of(
    table: Seq<Row>,
    chat_id: i64,
    sender: Person,
    today: Seq<char>,
) -> Handled {
    if sender.username.len() == 0 {
        answered(table, chat_id, need_username_text())
    } else if has_id(table, sender.id) {
        answered(
            register(table, sender, today),
            chat_id,
            registration_text(Registration::AlreadyExists),
        )
    } else if has_user(table, sender.username) {
        answered(table, chat_id, already_registered_text())
    } else {
        answered(register(table, sender, today), chat_id, registration_text(Registration::Created))
    }
}

/// What `/reg` with the key `key` comes to on the day `today`.
///
/// A member registers in a private chat with the bot, and with the key
/// that the server asks for, if it asks for one. Only then the message
/// needs a sender.
pub open spec fn registration(
    table: Seq<Row>,
    settings: Settings,
    message: Incoming,
    key: Seq<char>,
    today: Seq<char>,
) -> Handled {
    if message.chat_id <= 0 {
        answered(table, message.chat_id, ask_private_text(settings.bot_username))
    } else if !key_accepted(settings.registration_key, key) {
        answered(table, message.chat_id, wrong_key_text())
    } else {
        match message.sender {
            Some(sender) => registration_of(table, message.chat_id, sender, today),
            None => without_sender(table),
        }
    }
}

/// What `/top` comes to: the ranking for a registered sender.
pub open spec fn ranking_request(table: Seq<Row>, settings: Settings, message: Incoming) -> Handled {
    match message.sender {
        Some(sender) => answered(
            table,
            message.chat_id,
            if has_user(table, sender.username) {
                ranking_text(leaderboard(table, 10))
            } else {
                not_registered_text(settings.bot_username)
            },
        ),
        None => without_sender(table),
    }
}

/// What a text with the keyword comes to, which `sender` wrote on the day
/// `today`.
///
/// Only a registered sender awards. The words of the text are worked
/// through as mentions. The notes to members are sent first, the answer to
/// the chat last.
pub open spec fn mentions(
    table: Seq<Row>,
    settings: Settings,
    chat_id: i64,
    sender: Seq<char>,
    text: Seq<char>,
    today: Seq<char>,
) -> Handled {
    if !has_user(table, sender) {
        answered(table, chat_id, not_registered_text(settings.bot_username))
    } else {
        let pass = after_words(
            start_of_pass(table),
            settings,
            sender,
            chat_id > 0,
            words(text),
            today,
        );
        match pass.failure {
            Some(e) => Handled { table: pass.table, result: Err(e) },
            None => Handled {
                table: pass.table,
                result: Ok(pass.notices + chat_reply(chat_id, pass.reply)),
            },
        }
    }
}

/// What a text without a command comes to on the day `today`.
///
/// Only a text that holds the keyword counts, whatever the case of its
/// letters; any other text is passed over, with or without a sender.
pub open spec fn free_text(
    table: Seq<Row>,
    settings: Settings,
    message: Incoming,
    text: Seq<char>,
    today: Seq<char>,
) -> Handled {
    if !contains_text(lowercase_of(text), lowercase_of(settings.key_word)) {
        Handled { table, result: Ok(Seq::empty()) }
    } else {
        match message.sender {
            Some(sender) => mentions(
                table,
                settings,
                message.chat_id,
                sender.username,
                text,
                today,
            ),
            None => without_sender(table),
        }
    }
}

/// Whether `/reg` with the key `key` makes a row for a new member: the
/// one outcome of a registration that the day counts for.
pub open spec fn creates_row(
    table: Seq<Row>,
    settings: Settings,
    message: Incoming,
    key: Seq<char>,
) -> bool {
    &&& message.chat_id > 0
    &&& key_accepted(settings.registration_key, key)
    &&& message.sender matches Some(sender)
    &&& sender.username.len() > 0
    &&& !has_id(table, sender.id)
    &&& !has_user(table, sender.username)
}

/// Whether a text without a command has its words worked through as
/// mentions: it holds the keyword and comes from a registered sender.
pub open spec fn awards(
    table: Seq<Row>,
    settings: Settings,
    message: Incoming,
    text: Seq<char>,
) -> bool {
    &&& contains_text(lowercase_of(text), lowercase_of(settings.key_word))
    &&& message.sender matches Some(sender)
    &&& has_user(table, sender.username)
}

/// Whether the day counts for what a message comes to, so that `handle`
/// reads the clock for it.
pub open spec fn reads_clock(table: Seq<Row>, settings: Settings, message: Incoming) -> bool {
    match message.text {
        None => false,
        Some(text) => match parsed(text, settings.bot_username) {
            Some(Order::Reg(key)) => creates_row(table, settings, message, key),
            Some(_) => false,
            None => awards(table, settings, message, text),
        },
    }
}

/// What a message comes to on the day `today`.
///
/// A message without text is passed over. A command is carried out. Any
/// other text is read as free text.
pub open spec fn handled(
    table: Seq<Row>,
    settings: Settings,
    message: Incoming,
    today: Seq<char>,
) -> Handled {
    match message.text {
        None => Handled { table, result: Ok(Seq::empty()) },
        Some(text) => match parsed(text, settings.bot_username) {
            Some(Order::Start) => answered(table, message.chat_id, descriptions_text()),
            Some(Order::Reg(key)) => registration(table, settings, message, key, today),
            Some(Order::Top) => ranking_request(table, settings, message),
            None => free_text(table, settings, message, text, today),
        },
    }
}

/// `/reg` from a member who has a row refreshes the names and nothing
/// else: the row bears the sender's names and keeps its identity, its
/// coins, its daily count and its day; no row is added and no other row
/// changes; the answer says that the sender was registered already.
pub proof fn lemma_registered_again(
    table: Seq<Row>,
    settings: Settings,
    message: Incoming,
    key: Seq<char>,
    today: Seq<char>,
)
    requires
        well_formed(table),
        message.chat_id > 0,
        key_accepted(settings.registration_key, key),
        message.sender matches Some(sender) && sender.username.len() > 0 && has_id(
            table,
            sender.id,
        ),
    ensures
        ({
            let sender = message.sender->0;
            let after = registration(table, settings, message, key, today);
            let at = id_position(table, sender.id);
            &&& after.result == Ok::<Seq<Sent>, LedgerError>(
                chat_reply(message.chat_id, already_registered_text()),
            )
            &&& well_formed(after.table)
            &&& after.table.len() == table.len()
            &&& 0 <= at < table.len()
            &&& after.table[at].username == sender.username
            &&& after.table[at].first_name == sender.first_name
            &&& after.table[at].last_name == sender.last_name
            &&& after.table[at].id == sender.id
            &&& after.table[at].coins == table[at].coins
            &&& after.table[at].coins_per_day == table[at].coins_per_day
            &&& after.table[at].current_date == table[at].current_date
            &&& forall|k: int| 0 <= k < table.len() && k != at ==> after.table[k] == table[k]
        }),
{
    let sender = message.sender->0;
    lemma_register(table, sender, today);
    lemma_id_position_is_first(table, sender.id);
}

/// Words without an `@` mention nobody: they leave the pass as it is.
pub proof fn lemma_no_mentions(
    pass: Pass,
    settings: Settings,
    sender: Seq<char>,
    private: bool,
    list: Seq<Seq<char>>,
    today: Seq<char>,
)
    requires
        forall|k: int| 0 <= k < list.len() ==> !(#[trigger] list[k]).contains('@'),
    ensures
        after_words(pass, settings, sender, private, list, today) == pass,
    decreases list.len(),
{
    if list.len() > 0 {
        let shorter = list.drop_last();
        assert forall|k: int| 0 <= k < shorter.len() implies !(#[trigger] shorter[k]).contains(
            '@',
        ) by {
            assert(shorter[k] == list[k]);
        }
        lemma_no_mentions(pass, settings, sender, private, shorter, today);
        assert(list.last() == list[list.len() - 1]);
    }
}

/// A text that holds the keyword, whatever the case of its letters, and
/// has a sender is read as the mentions of that sender.
pub proof fn lemma_free_text_with_keyword(
    table: Seq<Row>,
    settings: Settings,
    message: Incoming,
    text: Seq<char>,
    today: Seq<char>,
)
    requires
        contains_text(lowercase_of(text), lowercase_of(settings.key_word)),
        message.sender is Some,
    ensures
        free_text(table, settings, message, text, today) == mentions(
            table,
            settings,
            message.chat_id,
            message.sender->0.username,
            text,
            today,
        ),
{
}

/// The note to the member who got a coin, where the chat is a private one.
pub open spec fn note_in_private(
    chat_id: i64,
    recipient_id: u64,
    coin: Seq<char>,
    sender: Seq<char>,
) -> Seq<Sent> {
    if chat_id > 0 {
        seq![Sent::Private { user_id: recipient_id, text: notice_text(coin, sender) }]
    } else {
        Seq::empty()
    }
}

/// The first thanks of a new day is given, whatever the count of the day
/// before was, also one at or above the allowance.
///
/// The sender's allowance is of another day, the allowance admits a
/// first coin, and the text ends in a space and the mention of a member
/// who can hold a coin more and is neither the sender nor the bot, with
/// no `@` before it. Then the member has one coin more, the sender has
/// given away one coin on the day `today`, and the answer holds the line
/// of the award and no other.
pub proof fn lemma_thanks_on_a_new_day(
    table: Seq<Row>,
    settings: Settings,
    chat_id: i64,
    sender: Seq<char>,
    head: Seq<char>,
    name: Seq<char>,
    today: Seq<char>,
)
    requires
        !head.contains('@'),
        is_word(name),
        !name.contains('@'),
        has_user(table, sender),
        has_user(table, name),
        name != sender,
        name != settings.bot_username,
        quota_of(table, sender) matches Some(quota) && quota.date != today,
        admitted(settings.max_by_day_coins, 0),
        can_credit(table, name),
    ensures
        ({
            let after = mentions(
                table,
                settings,
                chat_id,
                sender,
                head + seq![' ', '@'] + name,
                today,
            );
            &&& after.table == count_up(credit(reset(table, sender, today), name), sender)
            &&& after.result == Ok::<Seq<Sent>, LedgerError>(
                note_in_private(chat_id, table[position(table, name)].id, settings.coin, sender)
                    + chat_reply(chat_id, "\n"@ + awarded_line(name, settings.coin)),
            )
            &&& balance_of(after.table, name) == balance_of(table, name) + 1
            &&& quota_of(after.table, sender) == Some(Quota { count: 1, date: today })
        }),
{
    let word = seq!['@'] + name;
    let text = head + seq![' ', '@'] + name;
    let start = start_of_pass(table);
    let private = chat_id > 0;
    let cap = settings.max_by_day_coins;
    let bot = settings.bot_username;
    // The words of the text: those of `head`, which mention nobody, and
    // the mention.
    assert(text =~= head + seq![' '] + word);
    assert(is_word(word)) by {
        assert forall|i: int| 0 <= i < word.len() implies !is_space(#[trigger] word[i]) by {
            if i > 0 {
                assert(word[i] == name[i - 1]);
            }
        }
    }
    lemma_words_with_one_more(head, word);
    lemma_words_hold_what_the_text_holds(head, '@');
    let list = words(text);
    assert(list.drop_last() =~= words(head));
    assert(list.last() == word);
    lemma_no_mentions(start, settings, sender, private, words(head), today);
    assert(after_words(start, settings, sender, private, list, today) == after_word(
        start,
        settings,
        sender,
        private,
        word,
        today,
    ));
    // The mention names `name`.
    assert(word.contains('@')) by {
        assert(word[0] == '@');
    }
    lemma_without_leading(name, '@');
    lemma_without_absent(name, '@');
    assert(without_char(word, '@') == name);
    // The award: the day starts, the coin is given and counted.
    let opened = reset(table, sender, today);
    let paid = credit(opened, name);
    lemma_position_is_first(table, sender);
    assert(can_credit(opened, name)) by {
        assert forall|i: int|
            0 <= i < opened.len() && (#[trigger] opened[i]).username == name implies opened[i].coins
            < u64::MAX by {
            assert(table[i].username == name);
        }
    }
    assert(can_count(paid, sender)) by {
        assert forall|i: int|
            0 <= i < paid.len() && (#[trigger] paid[i]).username == sender implies paid[i].coins_per_day
            < i32::MAX by {
            assert(opened[i].username == sender);
            assert(table[i].username == sender);
        }
    }
    lemma_new_day(table, cap, sender, bot, name, today);
    lemma_award_step(table, cap, sender, bot, name, today, name);
    let pass = after_word(start, settings, sender, private, word, today);
    assert(pass.reply =~= "\n"@ + awarded_line(name, settings.coin));
    assert(pass.notices =~= note_in_private(
        chat_id,
        table[position(table, name)].id,
        settings.coin,
        sender,
    ));
}

/// Whether `table` and `r` are what `expected` says.
pub open spec fn meets(
    expected: Handled,
    table: Seq<Row>,
    r: Result<Vec<Outgoing>, LedgerError>,
) -> bool {
    &&& table == expected.table
    &&& match expected.result {
        Ok(messages) => r matches Ok(out) && sent(out@) == messages,
        Err(e) => r matches Err(got) && got == e,
    }
}

/// The answer to the chat.
fn reply_to_chat(chat_id: i64, reply: &String) -> (out: Vec<Outgoing>)
    ensures
        sent(out@) == chat_reply(chat_id, reply@),
{
    let mut out: Vec<Outgoing> = Vec::new();
    if reply.as_str().unicode_len() > 0 {
        out.push(Outgoing::Chat { chat_id, text: escape_underscores(reply.as_str()) });
    }
    assert(sent(out@) =~= chat_reply(chat_id, reply@));
    out
}

/// What the mentions of a message came to.
#[derive(Debug)]
pub struct Replies {
    /// The answer to the chat; empty where there is nothing to say.
    pub reply: String,
    /// The notes to the members who got a coin.
    pub notices: Vec<Outgoing>,
}

impl ChatServer {
    /// Awards the mentions in `text`, which `sender` wrote on the day
    /// `today`, in a private chat or not.
    pub fn award_mentions(
        &mut self,
        sender: &String,
        private: bool,
        text: &str,
        today: &String,
    ) -> (r: Result<Replies, LedgerError>)
        requires
            old(self).wf(),
        ensures
            final(self).wf(),
            final(self).settings() == old(self).settings(),
            ({
                let pass = after_words(
                    start_of_pass(old(self).table()),
                    old(self).settings(),
                    sender@,
                    private,
                    words(text@),
                    today@,
                );
                &&& final(self).table() == pass.table
                &&& match r {
                    Ok(replies) => {
                        &&& pass.failure is None
                        &&& replies.reply@ == pass.reply
                        &&& sent(replies.notices@) == pass.notices
                    },
                    Err(e) => pass.failure == Some(e),
                }
            }),
    {
        let list = split_words(text);
        let n: usize = list.len();
        let mut reply = String::new();
        let mut notices: Vec<Outgoing> = Vec::new();
        let ghost start = start_of_pass(self.table());
        let ghost settings = self.settings();
        let mut i: usize = 0;
        assert(list.deep_view().take(0) =~= Seq::<Seq<char>>::empty());
        assert(sent(notices@) =~= Seq::<Sent>::empty());
        while i < n
            invariant
                n == list@.len(),
                i <= n,
                list.deep_view() == words(text@),
                self.wf(),
                self.settings() == settings,
                settings == old(self).settings(),
                start == start_of_pass(old(self).table()),
                after_words(start, settings, sender@, private, list.deep_view().take(i as int), today@)
                    == (Pass {
                    table: self.table(),
                    reply: reply@,
                    notices: sent(notices@),
                    failure: None,
                }),
            decreases n - i,
        {
            let ghost before = sent(notices@);
            let ghost said = reply@;
            proof {
                let upto = list.deep_view().take(i + 1);
                assert(upto.drop_last() =~= list.deep_view().take(i as int));
                assert(upto.last() == list@[i as int]@);
            }
            let word = list[i].as_str();
            if has_char(word, '@') {
                let name = remove_char(word, '@');
                match self.award(sender, &name, today) {
                    Err(e) => {
                        proof {
                            lemma_failure_ends_pass(
                                start,
                                settings,
                                sender@,
                                private,
                                list.deep_view(),
                                today@,
                                i + 1,
                            );
                        }
                        return Err(e);
                    },
                    Ok(Award::NotRegistered) => {
                        reply.append("\n");
                        reply.append("Пользователь @");
                        reply.append(name.as_str());
                        reply.append(" не зарегистрирован");
                        assert(reply@ =~= said + "\n"@ + unknown_user_line(name@));
                    },
                    Ok(Award::Excluded) => {},
                    Ok(Award::Given { recipient_id }) => {
                        reply.append("\n");
                        reply.append("@");
                        reply.append(name.as_str());
                        reply.append(" получил ");
                        reply.append(self.coin.as_str());
                        assert(reply@ =~= said + "\n"@ + awarded_line(name@, settings.coin));
                        if private {
                            let mut note = String::from_str("Вам передали ");
                            note.append(self.coin.as_str());
                            note.append(" от @");
                            note.append(sender.as_str());
                            assert(note@ =~= notice_text(settings.coin, sender@));
                            notices.push(Outgoing::Private { user_id: recipient_id, text: note });
                            assert(sent(notices@) =~= before.push(
                                Sent::Private {
                                    user_id: recipient_id,
                                    text: notice_text(settings.coin, sender@),
                                },
                            ));
                        }
                    },
                    Ok(Award::QuotaExceeded) => {
                        reply.append("\n");
                        reply.append("Вы привысили максимальное количество ");
                        reply.append(self.coin.as_str());
                        reply.append(" в день");
                        assert(reply@ =~= said + "\n"@ + quota_line(settings.coin));
                    },
                }
            }
            i += 1;
        }
        assert(list.deep_view().take(n as int) =~= list.deep_view());
        Ok(Replies { reply, notices })
    }

    /// Registers `sender` on the day `today` and answers to the chat
    /// `chat_id`.
    pub fn register_sender(&mut self, chat_id: i64, sender: &UserData, today: &String) -> (out: Vec<
        Outgoing,
    >)
        requires
            old(self).wf(),
        ensures
            final(self).wf(),
            final(self).settings() == old(self).settings(),
            meets(
                registration_of(old(self).table(), chat_id, sender@, today@),
                final(self).table(),
                Ok(out),
            ),
    {
        let reply = if sender.username.as_str().unicode_len() == 0 {
            String::from_str(
                "*Регистрация НЕ выполнена*\\.\nНеобходимо установить в профиле Имя пользователя\\(Username\\)\\.\nПри смене имени пользователя необходимо снова запустить команду регистрации\\.",
            )
        } else if !self.id_exist(sender.id) && self.user_exist(&sender.username) {
            String::from_str("Вы уже зарегистрированны")
        } else {
            match self.add_user_on(sender, today) {
                Registration::Created => String::from_str("Регистрация прошла успешно"),
                Registration::AlreadyExists => String::from_str("Вы уже зарегистрированны"),
            }
        };
        reply_to_chat(chat_id, &reply)
    }

    /// Carries out `/reg` with the key `key` as far as the day does not
    /// count: all but the row of a new member, for which it returns
    /// `None` and changes nothing.
    pub fn registration_of_known(&mut self, message: &IncomingMessage, key: &String) -> (r: Option<
        Result<Vec<Outgoing>, LedgerError>,
    >)
        requires
            old(self).wf(),
        ensures
            final(self).wf(),
            final(self).settings() == old(self).settings(),
            r is None <==> creates_row(old(self).table(), old(self).settings(), message@, key@),
            r is None ==> final(self).table() == old(self).table(),
            r matches Some(done) ==> forall|day: Seq<char>|
                meets(
                    #[trigger] registration(
                        old(self).table(),
                        old(self).settings(),
                        message@,
                        key@,
                        day,
                    ),
                    final(self).table(),
                    done,
                ),
    {
        if message.chat_id <= 0 {
            let mut reply = String::from_str("Регистрация возможна через личное сообщение боту @");
            reply.append(self.bot_username.as_str());
            return Some(Ok(reply_to_chat(message.chat_id, &reply)));
        }
        let accepted = match &self.registration_key {
            Some(asked) => *key == *asked,
            None => true,
        };
        if !accepted {
            let reply = String::from_str("*Регистрация НЕ выполнена*\\.\nКлюч задан неверно");
            return Some(Ok(reply_to_chat(message.chat_id, &reply)));
        }
        let sender = match &message.sender {
            Some(sender) => sender,
            None => {
                return Some(Err(LedgerError::NoSender));
            },
        };
        if sender.username.as_str().unicode_len() == 0 {
            let reply = String::from_str(
                "*Регистрация НЕ выполнена*\\.\nНеобходимо установить в профиле Имя пользователя\\(Username\\)\\.\nПри смене имени пользователя необходимо снова запустить команду регистрации\\.",
            );
            return Some(Ok(reply_to_chat(message.chat_id, &reply)));
        }
        if self.refresh_names(sender) || self.user_exist(&sender.username) {
            let reply = String::from_str("Вы уже зарегистрированны");
            return Some(Ok(reply_to_chat(message.chat_id, &reply)));
        }
        None
    }

    /// Carries out `/reg` with the key `key` on the day `today`.
    pub fn handle_registration(
        &mut self,
        message: &IncomingMessage,
        key: &String,
        today: &String,
    ) -> (r: Result<Vec<Outgoing>, LedgerError>)
        requires
            old(self).wf(),
        ensures
            final(self).wf(),
            final(self).settings() == old(self).settings(),
            meets(
                registration(old(self).table(), old(self).settings(), message@, key@, today@),
                final(self).table(),
                r,
            ),
    {
        match self.registration_of_known(message, key) {
            Some(done) => done,
            None => match &message.sender {
                Some(sender) => Ok(self.register_sender(message.chat_id, sender, today)),
                None => Err(LedgerError::NoSender),
            },
        }
    }

    /// The answer to `/top`: the ranking for a registered sender.
    pub fn handle_top(&self, message: &IncomingMessage) -> (r: Result<Vec<Outgoing>, LedgerError>)
        ensures
            meets(ranking_request(self.table(), self.settings(), message@), self.table(), r),
    {
        let sender = match &message.sender {
            Some(sender) => sender,
            None => {
                return Err(LedgerError::NoSender);
            },
        };
        let reply = if self.user_exist(&sender.username) {
            self.get_top()
        } else {
            self.not_registered()
        };
        Ok(reply_to_chat(message.chat_id, &reply))
    }

    /// Tells the sender to register.
    fn not_registered(&self) -> (reply: String)
        ensures
            reply@ == not_registered_text(self.bot_username@),
    {
        let mut reply = String::from_str(
            "*Вы НЕ зарегистрированны*\\.\nРегистрация возможна через личное сообщение боту @",
        );
        reply.append(self.bot_username.as_str());
        reply
    }

    /// Reads a text with the keyword, which `sender` wrote in the chat
    /// `chat_id` on the day `today`.
    pub fn handle_mentions(
        &mut self,
        chat_id: i64,
        sender: &String,
        text: &String,
        today: &String,
    ) -> (r: Result<Vec<Outgoing>, LedgerError>)
        requires
            old(self).wf(),
        ensures
            final(self).wf(),
            final(self).settings() == old(self).settings(),
            meets(
                mentions(old(self).table(), old(self).settings(), chat_id, sender@, text@, today@),
                final(self).table(),
                r,
            ),
    {
        if !self.user_exist(sender) {
            let reply = self.not_registered();
            return Ok(reply_to_chat(chat_id, &reply));
        }
        match self.award_mentions(sender, chat_id > 0, text.as_str(), today) {
            Err(e) => Err(e),
            Ok(replies) => {
                let mut out = replies.notices;
                let mut last = reply_to_chat(chat_id, &replies.reply);
                let ghost notes = sent(out@);
                let ghost answer = sent(last@);
                out.append(&mut last);
                assert(sent(out@) =~= notes + answer);
                Ok(out)
            },
        }
    }

    /// Reads a text without a command as far as the day does not count:
    /// all but the working through of mentions, for which it returns
    /// `None`.
    pub fn free_text_without_awards(&self, message: &IncomingMessage, text: &String) -> (r: Option<
        Result<Vec<Outgoing>, LedgerError>,
    >)
        ensures
            r is None <==> awards(self.table(), self.settings(), message@, text@),
            r matches Some(done) ==> forall|day: Seq<char>|
                meets(
                    #[trigger] free_text(self.table(), self.settings(), message@, text@, day),
                    self.table(),
                    done,
                ),
    {
        if !contains_ignoring_case(text.as_str(), self.key_word.as_str()) {
            let out: Vec<Outgoing> = Vec::new();
            assert(sent(out@) =~= Seq::<Sent>::empty());
            return Some(Ok(out));
        }
        let sender = match &message.sender {
            Some(sender) => sender,
            None => {
                return Some(Err(LedgerError::NoSender));
            },
        };
        if !self.user_exist(&sender.username) {
            let reply = self.not_registered();
            return Some(Ok(reply_to_chat(message.chat_id, &reply)));
        }
        None
    }

    /// Reads a text without a command, which arrived on the day `today`.
    pub fn handle_free_text(&mut self, message: &IncomingMessage, text: &String, today: &String) -> (r:
        Result<Vec<Outgoing>, LedgerError>)
        requires
            old(self).wf(),
        ensures
            final(self).wf(),
            final(self).settings() == old(self).settings(),
            meets(
                free_text(old(self).table(), old(self).settings(), message@, text@, today@),
                final(self).table(),
                r,
            ),
    {
        match self.free_text_without_awards(message, text) {
            Some(done) => done,
            None => match &message.sender {
                Some(sender) => self.handle_mentions(message.chat_id, &sender.username, text, today),
                None => Err(LedgerError::NoSender),
            },
        }
    }
}

/// Handles a message that arrived on the day `today`, and returns what is
/// to be sent, in that order.
pub fn handle_on(message: &IncomingMessage, cs: &mut ChatServer, today: &String) -> (r: Result<
    Vec<Outgoing>,
    LedgerError,
>)
    requires
        old(cs).wf(),
    ensures
        final(cs).wf(),
        final(cs).settings() == old(cs).settings(),
        meets(
            handled(old(cs).table(), old(cs).settings(), message@, today@),
            final(cs).table(),
            r,
        ),
{
    let text = match &message.text {
        Some(text) => text,
        None => {
            let out: Vec<Outgoing> = Vec::new();
            assert(sent(out@) =~= Seq::<Sent>::empty());
            return Ok(out);
        },
    };
    match Command::parse(text.as_str(), cs.bot_username.as_str()) {
        Some(Command::Start) => {
            let reply = Command::descriptions();
            Ok(reply_to_chat(message.chat_id, &reply))
        },
        Some(Command::Reg(key)) => cs.handle_registration(message, &key, today),
        Some(Command::Top) => cs.handle_top(message),
        None => cs.handle_free_text(message, text, today),
    }
}

/// Handles a message that arrives now.
///
/// The clock is read only where the day counts: for the row of a new
/// member, and for the mentions of a registered sender. Such a message
/// counts for the current day in UTC; where the clock cannot be read it
/// ends with `NoClock` and changes nothing. Every other message comes to
/// what it comes to on any day.
pub fn handle(message: &IncomingMessage, cs: &mut ChatServer) -> (r: Result<
    Vec<Outgoing>,
    LedgerError,
>)
    requires
        old(cs).wf(),
    ensures
        final(cs).wf(),
        final(cs).settings() == old(cs).settings(),
        !reads_clock(old(cs).table(), old(cs).settings(), message@) ==> forall|day: Seq<char>|
            meets(
                #[trigger] handled(old(cs).table(), old(cs).settings(), message@, day),
                final(cs).table(),
                r,
            ),
        reads_clock(old(cs).table(), old(cs).settings(), message@) ==> (final(cs).table() == old(
            cs,
        ).table() && r == Err::<Vec<Outgoing>, LedgerError>(LedgerError::NoClock))
            || exists|day: CalendarDay|
            day.is_valid() && meets(
                handled(old(cs).table(), old(cs).settings(), message@, day.text()),
                final(cs).table(),
                r,
            ),
{
    let text = match &message.text {
        Some(text) => text,
        None => {
            let out: Vec<Outgoing> = Vec::new();
            assert(sent(out@) =~= Seq::<Sent>::empty());
            return Ok(out);
        },
    };
    match Command::parse(text.as_str(), cs.bot_username.as_str()) {
        Some(Command::Start) => {
            let reply = Command::descriptions();
            Ok(reply_to_chat(message.chat_id, &reply))
        },
        Some(Command::Top) => cs.handle_top(message),
        Some(Command::Reg(key)) => match cs.registration_of_known(message, &key) {
            Some(done) => done,
            None => match (&message.sender, today_text()) {
                (Some(sender), Some(today)) => Ok(
                    cs.register_sender(message.chat_id, sender, &today),
                ),
                (Some(_), None) => Err(LedgerError::NoClock),
                (None, _) => Err(LedgerError::NoSender),
            },
        },
        None => match cs.free_text_without_awards(message, text) {
            Some(done) => done,
            None => match (&message.sender, today_text()) {
                (Some(sender), Some(today)) => cs.handle_mentions(
                    message.chat_id,
                    &sender.username,
                    text,
                    &today,
                ),
                (Some(_), None) => Err(LedgerError::NoClock),
                (None, _) => Err(LedgerError::NoSender),
            },
        },
    }
}

} // verus!

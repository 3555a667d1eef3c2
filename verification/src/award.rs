//! The award of one coin under the daily allowance.

use vstd::prelude::*;
use crate::chat_server::{ChatServer, LedgerError};
use crate::table::{
    balance_of, can_count, can_credit, count_up, credit, has_user, lemma_count_up, lemma_credit,
    lemma_position_is_first, lemma_reset, position, quota_of, reset, well_formed, Quota, Row,
};

verus! {

/// What became of one mention.
#[derive(Clone, Copy, Debug, PartialEq, Eq, Structural)]
pub enum Award {
    /// Nobody bears the mentioned username.
    NotRegistered,
    /// The sender mentioned themselves or the bot.
    Excluded,
    /// The mentioned member got a coin.
    Given { recipient_id: u64 },
    /// The sender has given away all coins of the day.
    QuotaExceeded,
}

/// The table after one mention, and what became of the mention.
pub struct Step {
    pub table: Seq<Row>,
    pub result: Result<Award, LedgerError>,
}

/// The coins that count as given away on the day `today`: those of the
/// allowance if it is of that day, none if it is of another.
pub open spec fn effective_count(quota: Quota, today: Seq<char>) -> int {
    if quota.date == today {
        quota.count
    } else {
        0
    }
}

/// Whether a sender who has given away `count` coins today may give one
/// more.
pub open spec fn admitted(cap: Option<int>, count: int) -> bool {
    match cap {
        Some(most) => count < most,
        None => true,
    }
}

/// One mention of `name` by `sender` on the day `today`.
///
/// A username that nobody bears, the sender's own and the bot's change
/// nothing. Otherwise the sender's allowance is read. If it is of another
/// day, the day `today` starts for the sender with no coin given away. If
/// the sender may give one more, every member who bears `name` gets a
/// coin, and the sender counts one coin more as given away.
pub open spec fn award_step(
    table: Seq<Row>,
    cap: Option<int>,
    sender: Seq<char>,
    bot: Seq<char>,
    name: Seq<char>,
    today: Seq<char>,
) -> Step {
    if !has_user(table, name) {
        Step { table, result: Ok(Award::NotRegistered) }
    } else if name == sender || name == bot {
        Step { table, result: Ok(Award::Excluded) }
    } else {
        match quota_of(table, sender) {
            None => Step { table, result: Err(LedgerError::NoSuchUser) },
            Some(quota) => {
                let opened = if quota.date == today {
                    table
                } else {
                    reset(table, sender, today)
                };
                if !admitted(cap, effective_count(quota, today)) {
                    Step { table: opened, result: Ok(Award::QuotaExceeded) }
                } else if !can_credit(opened, name) {
                    Step { table: opened, result: Err(LedgerError::CounterOverflow) }
                } else if !can_count(credit(opened, name), sender) {
                    Step {
                        table: credit(opened, name),
                        result: Err(LedgerError::CounterOverflow),
                    }
                } else {
                    Step {
                        table: count_up(credit(opened, name), sender),
                        result: Ok(
                            Award::Given { recipient_id: table[position(table, name)].id },
                        ),
                    }
                }
            },
        }
    }
}

/// The coins that `sender` has given away on the day `today`, as the table
/// has them.
pub open spec fn day_count(table: Seq<Row>, sender: Seq<char>, today: Seq<char>) -> int {
    match quota_of(table, sender) {
        Some(quota) => effective_count(quota, today),
        None => 0,
    }
}

/// Whether a mention gave a coin.
pub open spec fn gave(result: Result<Award, LedgerError>) -> bool {
    result matches Ok(Award::Given { .. })
}

/// A mention that gives a coin is admitted under the allowance, raises
/// the sender's count of the day by one and the balance of the mentioned
/// member by one. Any other mention leaves the count of the day as it
/// was; one that ends without an error leaves every balance as it was.
/// No mention lowers a balance or takes a member away, and once the
/// allowance of the sender has been read it is of the day `today`.
pub proof fn lemma_award_step(
    table: Seq<Row>,
    cap: Option<int>,
    sender: Seq<char>,
    bot: Seq<char>,
    name: Seq<char>,
    today: Seq<char>,
    who: Seq<char>,
)
    ensures
        ({
            let step = award_step(table, cap, sender, bot, name, today);
            &&& day_count(step.table, sender, today) == day_count(table, sender, today) + (if gave(
                step.result,
            ) {
                1int
            } else {
                0int
            })
            &&& gave(step.result) ==> admitted(cap, day_count(table, sender, today))
            &&& gave(step.result) ==> balance_of(step.table, name) == balance_of(table, name) + 1
            &&& step.result is Ok ==> balance_of(step.table, who) == balance_of(table, who) + (if gave(
                step.result,
            ) && who == name {
                1nat
            } else {
                0nat
            })
            &&& balance_of(step.table, who) >= balance_of(table, who)
            &&& has_user(step.table, who) == has_user(table, who)
            &&& has_user(table, name) && name != sender && name != bot ==> (quota_of(
                step.table,
                sender,
            ) matches Some(quota) ==> quota.date == today)
            &&& well_formed(table) ==> well_formed(step.table)
        }),
{
    if has_user(table, name) && name != sender && name != bot && quota_of(table, sender) is Some {
        let quota = quota_of(table, sender).unwrap();
        let opened = if quota.date == today {
            table
        } else {
            reset(table, sender, today)
        };
        let paid = credit(opened, name);
        lemma_reset(table, sender, today, sender);
        lemma_reset(table, sender, today, name);
        lemma_reset(table, sender, today, who);
        lemma_credit(opened, name, sender);
        lemma_credit(opened, name, name);
        lemma_credit(opened, name, who);
        lemma_count_up(paid, sender, sender);
        lemma_count_up(paid, sender, name);
        lemma_count_up(paid, sender, who);
    }
}

/// A sender who has given away all coins of the day gives no more: the
/// mention of a member ends as `QuotaExceeded` and changes nothing.
pub proof fn lemma_allowance_used_up(
    table: Seq<Row>,
    cap: int,
    sender: Seq<char>,
    bot: Seq<char>,
    name: Seq<char>,
    today: Seq<char>,
)
    requires
        has_user(table, name),
        name != sender,
        name != bot,
        quota_of(table, sender) matches Some(quota) && quota.date == today && quota.count >= cap,
    ensures
        award_step(table, Some(cap), sender, bot, name, today) == (Step {
            table,
            result: Ok(Award::QuotaExceeded),
        }),
{
}

/// On a new day the count of the day before does not matter: the sender is
/// admitted as one who has given away no coin, and afterwards the
/// allowance is of the new day, with one coin if the mention gave one and
/// with none if it did not.
pub proof fn lemma_new_day(
    table: Seq<Row>,
    cap: Option<int>,
    sender: Seq<char>,
    bot: Seq<char>,
    name: Seq<char>,
    today: Seq<char>,
)
    requires
        has_user(table, name),
        name != sender,
        name != bot,
        quota_of(table, sender) matches Some(quota) && quota.date != today,
    ensures
        ({
            let step = award_step(table, cap, sender, bot, name, today);
            &&& step.result == Ok::<Award, LedgerError>(Award::QuotaExceeded) <==> !admitted(cap, 0)
            &&& quota_of(step.table, sender) == Some(
                Quota { count: if gave(step.result) { 1 } else { 0 }, date: today },
            )
        }),
{
    let opened = reset(table, sender, today);
    let paid = credit(opened, name);
    lemma_reset(table, sender, today, sender);
    lemma_credit(opened, name, sender);
    lemma_count_up(paid, sender, sender);
}

/// The sender's own username and the bot's are never awarded: a mention of
/// either changes nothing in the table, so no balance and no allowance.
pub proof fn lemma_excluded(
    table: Seq<Row>,
    cap: Option<int>,
    sender: Seq<char>,
    bot: Seq<char>,
    name: Seq<char>,
    today: Seq<char>,
)
    requires
        name == sender || name == bot,
    ensures
        ({
            let step = award_step(table, cap, sender, bot, name, today);
            &&& step.table == table
            &&& step.result == Ok::<Award, LedgerError>(Award::Excluded) || step.result == Ok::<
                Award,
                LedgerError,
            >(Award::NotRegistered)
            &&& !gave(step.result)
        }),
{
}

/// The table after `sender` has mentioned `names` one after the other on
/// the day `today`.
pub open spec fn after_mentions(
    table: Seq<Row>,
    cap: Option<int>,
    sender: Seq<char>,
    bot: Seq<char>,
    names: Seq<Seq<char>>,
    today: Seq<char>,
) -> Seq<Row>
    decreases names.len(),
{
    if names.len() == 0 {
        table
    } else {
        award_step(
            after_mentions(table, cap, sender, bot, names.drop_last(), today),
            cap,
            sender,
            bot,
            names.last(),
            today,
        ).table
    }
}

/// How many of the mentions of `names` by `sender` on the day `today` gave
/// a coin.
pub open spec fn coins_given(
    table: Seq<Row>,
    cap: Option<int>,
    sender: Seq<char>,
    bot: Seq<char>,
    names: Seq<Seq<char>>,
    today: Seq<char>,
) -> nat
    decreases names.len(),
{
    if names.len() == 0 {
        0
    } else {
        let before = after_mentions(table, cap, sender, bot, names.drop_last(), today);
        let earlier = coins_given(table, cap, sender, bot, names.drop_last(), today);
        if gave(award_step(before, cap, sender, bot, names.last(), today).result) {
            earlier + 1
        } else {
            earlier
        }
    }
}

/// Within one day a sender gives away no more coins than the allowance
/// has left: however many members the sender mentions, and whomever, the
/// coins given and those counted before stay within `cap`.
pub proof fn lemma_daily_cap(
    table: Seq<Row>,
    cap: int,
    sender: Seq<char>,
    bot: Seq<char>,
    names: Seq<Seq<char>>,
    today: Seq<char>,
)
    ensures
        day_count(after_mentions(table, Some(cap), sender, bot, names, today), sender, today)
            == day_count(table, sender, today) + coins_given(
            table,
            Some(cap),
            sender,
            bot,
            names,
            today,
        ),
        coins_given(table, Some(cap), sender, bot, names, today) <= (if day_count(
            table,
            sender,
            today,
        ) < cap {
            cap - day_count(table, sender, today)
        } else {
            0
        }),
        well_formed(table) && cap >= 0 ==> coins_given(table, Some(cap), sender, bot, names, today)
            <= cap,
        well_formed(table) ==> well_formed(
            after_mentions(table, Some(cap), sender, bot, names, today),
        ),
    decreases names.len(),
{
    if names.len() > 0 {
        let before = after_mentions(table, Some(cap), sender, bot, names.drop_last(), today);
        lemma_daily_cap(table, cap, sender, bot, names.drop_last(), today);
        lemma_award_step(before, Some(cap), sender, bot, names.last(), today, sender);
    }
    if well_formed(table) {
        lemma_day_count_not_negative(table, sender, today);
    }
}

/// In a well-formed table no count of a day is negative.
pub proof fn lemma_day_count_not_negative(table: Seq<Row>, sender: Seq<char>, today: Seq<char>)
    requires
        well_formed(table),
    ensures
        day_count(table, sender, today) >= 0,
{
    lemma_position_is_first(table, sender);
}

impl ChatServer {
    /// Handles one mention of `recipient` by `sender` on the day `today`.
    ///
    /// An error leaves the table as far as the mention got: the sender's
    /// day may have started, and the coin may have been given without
    /// having been counted.
    pub fn award(&mut self, sender: &String, recipient: &String, today: &String) -> (r: Result<
        Award,
        LedgerError,
    >)
        requires
            old(self).wf(),
        ensures
            final(self).wf(),
            final(self).settings() == old(self).settings(),
            final(self).table() == award_step(
                old(self).table(),
                old(self).settings().max_by_day_coins,
                sender@,
                old(self).bot_username@,
                recipient@,
                today@,
            ).table,
            r == award_step(
                old(self).table(),
                old(self).settings().max_by_day_coins,
                sender@,
                old(self).bot_username@,
                recipient@,
                today@,
            ).result,
    {
        let recipient_id = match self.get_id_by_username(recipient) {
            Ok(id) => id,
            Err(_) => {
                return Ok(Award::NotRegistered);
            },
        };
        if *recipient == *sender || *recipient == self.bot_username {
            return Ok(Award::Excluded);
        }
        let quota = match self.get_coins_per_day(sender) {
            Ok(quota) => quota,
            Err(e) => {
                return Err(e);
            },
        };
        let mut count: i32 = quota.coins_per_day;
        if quota.current_date != *today {
            self.reset_limits(sender, today);
            count = 0;
        }
        let may_give = match self.max_by_day_coins {
            Some(most) => count < most,
            None => true,
        };
        if !may_give {
            return Ok(Award::QuotaExceeded);
        }
        match self.increase_coin_count(recipient) {
            Ok(_) => {},
            Err(e) => {
                return Err(e);
            },
        }
        match self.increase_coin_per_day_count(sender) {
            Ok(_) => {},
            Err(e) => {
                return Err(e);
            },
        }
        Ok(Award::Given { recipient_id })
    }
}

} // verus!

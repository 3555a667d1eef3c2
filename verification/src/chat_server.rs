//! The ledger: the table of members in memory and the accounting on it.

use vstd::prelude::*;
use crate::calendar::{today_text, CalendarDay};
use crate::leaderboard::{
    leaderboard, ranking_text, standings, top_rows, write_ranking, LeaderRow,
};
use crate::table::{
    balance_of, can_count, can_credit, count_up, counted, credit, credited, has_id, has_user,
    id_of, id_position, lemma_credit, lemma_id_position, lemma_id_position_is_first,
    lemma_position, lemma_register, position, quota_of, register, renewed, reset, well_formed,
    Person, Quota,
    Row,
};

verus! {

/// Why an operation on the table gave no result.
#[derive(Clone, Copy, Debug, PartialEq, Eq, Structural)]
pub enum LedgerError {
    /// No member bears the username asked for.
    NoSuchUser,
    /// A counter stands at its largest value and cannot rise.
    CounterOverflow,
    /// The message names no sender, and what it asks for needs one.
    NoSender,
    /// The clock cannot be read, and what is asked for needs the day.
    NoClock,
}

/// What the table holds of a member's daily allowance: how many coins the
/// member has given away on `current_date`.
#[derive(Debug)]
pub struct LimitationData {
    pub coins_per_day: i32,
    pub current_date: String,
}

impl View for LimitationData {
    type V = Quota;

    open spec fn view(&self) -> Quota {
        Quota { count: self.coins_per_day as int, date: self.current_date@ }
    }
}

/// A participant of the chat as the transport names them.
#[derive(Debug)]
pub struct UserData {
    pub id: u64,
    pub username: String,
    pub first_name: String,
    pub last_name: String,
}

impl View for UserData {
    type V = Person;

    open spec fn view(&self) -> Person {
        Person {
            id: self.id,
            username: self.username@,
            first_name: self.first_name@,
            last_name: self.last_name@,
        }
    }
}

impl UserData {
    /// The participant with the given identity; a missing handle or last
    /// name becomes the empty text.
    pub fn get_new_user(
        id: u64,
        username: Option<String>,
        first_name: String,
        last_name: Option<String>,
    ) -> (user: UserData)
        ensures
            user.id == id,
            user.username@ == (match username {
                Some(name) => name@,
                None => Seq::<char>::empty(),
            }),
            user.first_name@ == first_name@,
            user.last_name@ == (match last_name {
                Some(name) => name@,
                None => Seq::<char>::empty(),
            }),
    {
        UserData {
            id,
            username: match username {
                Some(name) => name,
                None => String::new(),
            },
            first_name,
            last_name: match last_name {
                Some(name) => name,
                None => String::new(),
            },
        }
    }
}

/// One row of the table.
#[derive(Debug)]
pub struct UserRow {
    pub id: u64,
    pub username: String,
    pub first_name: String,
    pub last_name: String,
    pub current_date: String,
    pub coins_per_day: i32,
    pub coins: u64,
}

impl View for UserRow {
    type V = Row;

    open spec fn view(&self) -> Row {
        Row {
            id: self.id,
            username: self.username@,
            first_name: self.first_name@,
            last_name: self.last_name@,
            current_date: self.current_date@,
            coins_per_day: self.coins_per_day as int,
            coins: self.coins as nat,
        }
    }
}

/// The rows of a vector as numbers and characters.
pub open spec fn model(rows: Seq<UserRow>) -> Seq<Row> {
    rows.map_values(|row: UserRow| row@)
}

/// What a registration did.
#[derive(Clone, Copy, Debug, PartialEq, Eq, Structural)]
pub enum Registration {
    /// The member is new and has a row now.
    Created,
    /// The member had a row, which bears the new names now.
    AlreadyExists,
}

/// What the chat server is set up with, as numbers and characters.
pub struct Settings {
    pub registration_key: Option<Seq<char>>,
    pub bot_name: Seq<char>,
    pub bot_username: Seq<char>,
    pub coin: Seq<char>,
    pub key_word: Seq<char>,
    pub max_by_day_coins: Option<int>,
}

/// The table of members. Its rows stand in the order in which they were
/// handed in or joined.
#[derive(Debug)]
pub struct UserTable {
    rows: Vec<UserRow>,
}

impl View for UserTable {
    type V = Seq<Row>;

    closed spec fn view(&self) -> Seq<Row> {
        model(self.rows@)
    }
}

/// The place of the first row that bears `name`, or the number of rows.
fn find_row(rows: &Vec<UserRow>, name: &String) -> (at: usize)
    ensures
        at == position(model(rows@), name@),
        at <= rows@.len(),
{
    let n: usize = rows.len();
    let mut i: usize = 0;
    while i < n
        invariant
            n == rows@.len(),
            i <= n,
            forall|k: int| 0 <= k < i ==> model(rows@)[k].username != name@,
        decreases n - i,
    {
        if rows[i].username == *name {
            proof {
                lemma_position(model(rows@), name@, i as int);
            }
            return i;
        }
        i += 1;
    }
    proof {
        lemma_position(model(rows@), name@, n as int);
    }
    n
}

/// The place of the row with the identity `id`, or the number of rows.
fn find_id(rows: &Vec<UserRow>, id: u64) -> (at: usize)
    ensures
        at == id_position(model(rows@), id),
        at <= rows@.len(),
{
    let n: usize = rows.len();
    let mut i: usize = 0;
    while i < n
        invariant
            n == rows@.len(),
            i <= n,
            forall|k: int| 0 <= k < i ==> model(rows@)[k].id != id,
        decreases n - i,
    {
        if rows[i].id == id {
            proof {
                lemma_id_position(model(rows@), id, i as int);
            }
            return i;
        }
        i += 1;
    }
    proof {
        lemma_id_position(model(rows@), id, n as int);
    }
    n
}

/// Whether every row that bears `name` can hold one coin more.
fn coins_can_rise(rows: &Vec<UserRow>, name: &String) -> (can: bool)
    ensures
        can == can_credit(model(rows@), name@),
{
    let n: usize = rows.len();
    let mut i: usize = 0;
    while i < n
        invariant
            n == rows@.len(),
            i <= n,
            forall|k: int|
                0 <= k < i && (#[trigger] model(rows@)[k]).username == name@ ==> model(
                    rows@,
                )[k].coins < u64::MAX,
        decreases n - i,
    {
        if rows[i].username == *name && rows[i].coins == u64::MAX {
            assert(model(rows@)[i as int].username == name@);
            return false;
        }
        i += 1;
    }
    true
}

/// Gives one coin to every row that bears `name`.
fn give_coin(rows: &mut Vec<UserRow>, name: &String)
    requires
        can_credit(model(old(rows)@), name@),
    ensures
        model(final(rows)@) == credit(model(old(rows)@), name@),
{
    let n: usize = rows.len();
    let ghost before = model(rows@);
    let mut i: usize = 0;
    while i < n
        invariant
            n == rows@.len(),
            n == before.len(),
            i <= n,
            can_credit(before, name@),
            forall|k: int|
                0 <= k < i ==> (#[trigger] rows@[k])@ == (if before[k].username == name@ {
                    credited(before[k])
                } else {
                    before[k]
                }),
            forall|k: int| i <= k < n ==> (#[trigger] rows@[k])@ == before[k],
        decreases n - i,
    {
        if rows[i].username == *name {
            assert(before[i as int].username == name@);
            rows[i].coins = rows[i].coins + 1;
        }
        i += 1;
    }
    assert(model(rows@) =~= credit(before, name@));
}

/// Whether every row that bears `name` can count one coin more.
fn counts_can_rise(rows: &Vec<UserRow>, name: &String) -> (can: bool)
    ensures
        can == can_count(model(rows@), name@),
{
    let n: usize = rows.len();
    let mut i: usize = 0;
    while i < n
        invariant
            n == rows@.len(),
            i <= n,
            forall|k: int|
                0 <= k < i && (#[trigger] model(rows@)[k]).username == name@ ==> model(
                    rows@,
                )[k].coins_per_day < i32::MAX,
        decreases n - i,
    {
        if rows[i].username == *name && rows[i].coins_per_day == i32::MAX {
            assert(model(rows@)[i as int].username == name@);
            return false;
        }
        i += 1;
    }
    true
}

/// Counts one coin more as given away in every row that bears `name`.
fn count_coin(rows: &mut Vec<UserRow>, name: &String)
    requires
        can_count(model(old(rows)@), name@),
    ensures
        model(final(rows)@) == count_up(model(old(rows)@), name@),
{
    let n: usize = rows.len();
    let ghost before = model(rows@);
    let mut i: usize = 0;
    while i < n
        invariant
            n == rows@.len(),
            n == before.len(),
            i <= n,
            can_count(before, name@),
            forall|k: int|
                0 <= k < i ==> (#[trigger] rows@[k])@ == (if before[k].username == name@ {
                    counted(before[k])
                } else {
                    before[k]
                }),
            forall|k: int| i <= k < n ==> (#[trigger] rows@[k])@ == before[k],
        decreases n - i,
    {
        if rows[i].username == *name {
            assert(before[i as int].username == name@);
            rows[i].coins_per_day = rows[i].coins_per_day + 1;
        }
        i += 1;
    }
    assert(model(rows@) =~= count_up(before, name@));
}

/// Starts the day `date` in every row that bears `name`.
fn renew(rows: &mut Vec<UserRow>, name: &String, date: &String)
    ensures
        model(final(rows)@) == reset(model(old(rows)@), name@, date@),
{
    let n: usize = rows.len();
    let ghost before = model(rows@);
    let mut i: usize = 0;
    while i < n
        invariant
            n == rows@.len(),
            n == before.len(),
            i <= n,
            forall|k: int|
                0 <= k < i ==> (#[trigger] rows@[k])@ == (if before[k].username == name@ {
                    renewed(before[k], date@)
                } else {
                    before[k]
                }),
            forall|k: int| i <= k < n ==> (#[trigger] rows@[k])@ == before[k],
        decreases n - i,
    {
        if rows[i].username == *name {
            rows[i].coins_per_day = 0;
            rows[i].current_date = date.clone();
        }
        i += 1;
    }
    assert(model(rows@) =~= reset(before, name@, date@));
}

/// Whether no row from `from` on has the identity of the row at `at`.
fn id_is_free(rows: &Vec<UserRow>, at: usize, from: usize) -> (free: bool)
    requires
        at < rows@.len(),
        from <= rows@.len(),
    ensures
        free == (forall|k: int| from <= k < rows@.len() ==> model(rows@)[k].id != model(
            rows@,
        )[at as int].id),
{
    let n: usize = rows.len();
    let mut k: usize = from;
    while k < n
        invariant
            n == rows@.len(),
            at < n,
            from <= k <= n,
            forall|j: int| from <= j < k ==> model(rows@)[j].id != model(rows@)[at as int].id,
        decreases n - k,
    {
        if rows[k].id == rows[at].id {
            assert(model(rows@)[k as int].id == model(rows@)[at as int].id);
            return false;
        }
        k += 1;
    }
    true
}

/// Whether the rows make a well-formed table.
fn rows_are_well_formed(rows: &Vec<UserRow>) -> (good: bool)
    ensures
        good == well_formed(model(rows@)),
{
    let n: usize = rows.len();
    let mut i: usize = 0;
    while i < n
        invariant
            n == rows@.len(),
            i <= n,
            forall|a: int, b: int| 0 <= a < i && a < b < n ==> model(rows@)[a].id != model(rows@)[b].id,
            forall|a: int| 0 <= a < i ==> model(rows@)[a].coins_per_day >= 0,
        decreases n - i,
    {
        if rows[i].coins_per_day < 0 {
            assert(model(rows@)[i as int].coins_per_day < 0);
            return false;
        }
        if !id_is_free(rows, i, i + 1) {
            return false;
        }
        i += 1;
    }
    assert forall|a: int, b: int| 0 <= a < n && 0 <= b < n && a != b implies model(rows@)[a].id
        != model(rows@)[b].id by {
        if a < b {
            assert(model(rows@)[a].id != model(rows@)[b].id);
        } else {
            assert(model(rows@)[b].id != model(rows@)[a].id);
        }
    }
    true
}

impl UserTable {
    /// A table without rows.
    pub fn new() -> (table: UserTable)
        ensures
            table@ == Seq::<Row>::empty(),
            well_formed(table@),
    {
        let table = UserTable { rows: Vec::new() };
        assert(table@ =~= Seq::<Row>::empty());
        table
    }

    /// The table with the given rows, if they make a well-formed table: no
    /// identity twice, no negative daily count.
    pub fn from_rows(rows: Vec<UserRow>) -> (table: Option<UserTable>)
        ensures
            table is Some <==> well_formed(model(rows@)),
            table matches Some(t) ==> t@ == model(rows@),
    {
        if rows_are_well_formed(&rows) {
            Some(UserTable { rows })
        } else {
            None
        }
    }

    /// The rows of the table.
    pub fn rows(&self) -> (rows: &Vec<UserRow>)
        ensures
            model(rows@) == self@,
    {
        &self.rows
    }
}

/// The ledger of one chat community: the table of its members and the
/// settings it runs with. Without `registration_key` members register
/// without a key. Without `max_by_day_coins` a member may give away any
/// number of coins a day.
#[derive(Debug)]
pub struct ChatServer {
    pub database: UserTable,
    pub registration_key: Option<String>,
    pub bot_name: String,
    pub bot_username: String,
    pub coin: String,
    pub key_word: String,
    pub max_by_day_coins: Option<i32>,
}

impl ChatServer {
    /// The rows of the table.
    pub open spec fn table(&self) -> Seq<Row> {
        self.database@
    }

    /// The settings.
    pub open spec fn settings(&self) -> Settings {
        Settings {
            registration_key: match self.registration_key {
                Some(key) => Some(key@),
                None => None,
            },
            bot_name: self.bot_name@,
            bot_username: self.bot_username@,
            coin: self.coin@,
            key_word: self.key_word@,
            max_by_day_coins: match self.max_by_day_coins {
                Some(cap) => Some(cap as int),
                None => None,
            },
        }
    }

    /// The table is well-formed.
    pub open spec fn wf(&self) -> bool {
        well_formed(self.table())
    }

    /// A ledger without members.
    pub fn new(
        registration_key: Option<String>,
        bot_name: String,
        bot_username: String,
        coin: String,
        key_word: String,
        max_by_day_coins: Option<i32>,
    ) -> (server: ChatServer)
        ensures
            server.wf(),
            server.table() == Seq::<Row>::empty(),
            server.registration_key == registration_key,
            server.bot_name == bot_name,
            server.bot_username == bot_username,
            server.coin == coin,
            server.key_word == key_word,
            server.max_by_day_coins == max_by_day_coins,
    {
        let server = ChatServer {
            database: UserTable::new(),
            registration_key,
            bot_name,
            bot_username,
            coin,
            key_word,
            max_by_day_coins,
        };
        server
    }

    /// Whether a member bears `username`.
    pub fn user_exist(&self, username: &String) -> (exists: bool)
        ensures
            exists == has_user(self.table(), username@),
    {
        find_row(&self.database.rows, username) < self.database.rows.len()
    }

    /// Whether a member has the identity `id`.
    pub fn id_exist(&self, id: u64) -> (exists: bool)
        ensures
            exists == has_id(self.table(), id),
    {
        find_id(&self.database.rows, id) < self.database.rows.len()
    }

    /// The coins of the first member who bears `username`; 0 where nobody
    /// does.
    pub fn get_balance(&self, username: &String) -> (coins: u64)
        ensures
            coins == balance_of(self.table(), username@),
    {
        let at = find_row(&self.database.rows, username);
        if at < self.database.rows.len() {
            self.database.rows[at].coins
        } else {
            0
        }
    }

    /// The daily allowance of the first member who bears `username`.
    pub fn get_coins_per_day(&self, username: &String) -> (r: Result<LimitationData, LedgerError>)
        ensures
            match quota_of(self.table(), username@) {
                Some(quota) => r matches Ok(data) && data@ == quota,
                None => r matches Err(e) && e == LedgerError::NoSuchUser,
            },
    {
        let at = find_row(&self.database.rows, username);
        if at < self.database.rows.len() {
            Ok(
                LimitationData {
                    coins_per_day: self.database.rows[at].coins_per_day,
                    current_date: self.database.rows[at].current_date.clone(),
                },
            )
        } else {
            Err(LedgerError::NoSuchUser)
        }
    }

    /// The identity of the first member who bears `username`.
    pub fn get_id_by_username(&self, username: &String) -> (r: Result<u64, LedgerError>)
        ensures
            match id_of(self.table(), username@) {
                Some(id) => r matches Ok(found) && found == id,
                None => r matches Err(e) && e == LedgerError::NoSuchUser,
            },
    {
        let at = find_row(&self.database.rows, username);
        if at < self.database.rows.len() {
            Ok(self.database.rows[at].id)
        } else {
            Err(LedgerError::NoSuchUser)
        }
    }

    /// Gives one coin to every member who bears `username`, and returns the
    /// balance that `username` has then. Nothing changes if one of them
    /// cannot hold a coin more.
    pub fn increase_coin_count(&mut self, username: &String) -> (r: Result<u64, LedgerError>)
        requires
            old(self).wf(),
        ensures
            final(self).wf(),
            final(self).settings() == old(self).settings(),
            match r {
                Ok(coins) => {
                    &&& can_credit(old(self).table(), username@)
                    &&& final(self).table() == credit(old(self).table(), username@)
                    &&& coins == balance_of(final(self).table(), username@)
                    &&& coins == balance_of(old(self).table(), username@) + (if has_user(
                        old(self).table(),
                        username@,
                    ) {
                        1nat
                    } else {
                        0nat
                    })
                },
                Err(e) => {
                    &&& !can_credit(old(self).table(), username@)
                    &&& final(self).table() == old(self).table()
                    &&& e == LedgerError::CounterOverflow
                },
            },
    {
        if !coins_can_rise(&self.database.rows, username) {
            return Err(LedgerError::CounterOverflow);
        }
        proof {
            lemma_credit(self.table(), username@, username@);
        }
        give_coin(&mut self.database.rows, username);
        Ok(self.get_balance(username))
    }

    /// Counts one coin more as given away today by every member who bears
    /// `username`. Nothing changes if one of the counts cannot rise.
    pub fn increase_coin_per_day_count(&mut self, username: &String) -> (r: Result<
        (),
        LedgerError,
    >)
        requires
            old(self).wf(),
        ensures
            final(self).wf(),
            final(self).settings() == old(self).settings(),
            match r {
                Ok(_) => {
                    &&& can_count(old(self).table(), username@)
                    &&& final(self).table() == count_up(old(self).table(), username@)
                },
                Err(e) => {
                    &&& !can_count(old(self).table(), username@)
                    &&& final(self).table() == old(self).table()
                    &&& e == LedgerError::CounterOverflow
                },
            },
    {
        if !counts_can_rise(&self.database.rows, username) {
            return Err(LedgerError::CounterOverflow);
        }
        count_coin(&mut self.database.rows, username);
        Ok(())
    }

    /// Starts the day `current` for every member who bears `username`: the
    /// count of coins given away is 0 again.
    pub fn reset_limits(&mut self, username: &String, current: &String)
        requires
            old(self).wf(),
        ensures
            final(self).wf(),
            final(self).settings() == old(self).settings(),
            final(self).table() == reset(old(self).table(), username@, current@),
    {
        renew(&mut self.database.rows, username, current);
    }

    /// The first `limit` lines of the ranking: one line for each three
    /// names, by falling sums of coins.
    pub fn top(&self, limit: usize) -> (lines: Vec<LeaderRow>)
        ensures
            standings(lines@) == leaderboard(self.table(), limit as nat),
    {
        top_rows(&self.database.rows, limit)
    }

    /// The ranking of the ten members with the most coins, as text.
    pub fn get_top(&self) -> (text: String)
        ensures
            text@ == ranking_text(leaderboard(self.table(), 10)),
    {
        let lines = self.top(10);
        write_ranking(&lines)
    }

    /// Gives the row of the identity of `user` the names of `user`, if the
    /// identity has a row, and tells whether it has one. The row keeps its
    /// coins, its daily count and its day. This is what a registration
    /// comes to for a known identity, on whatever day.
    pub fn refresh_names(&mut self, user: &UserData) -> (known: bool)
        requires
            old(self).wf(),
        ensures
            final(self).wf(),
            final(self).settings() == old(self).settings(),
            known == has_id(old(self).table(), user@.id),
            known ==> forall|day: Seq<char>|
                final(self).table() == #[trigger] register(old(self).table(), user@, day),
            !known ==> final(self).table() == old(self).table(),
    {
        let ghost before = self.table();
        proof {
            lemma_id_position_is_first(before, user@.id);
        }
        let at = find_id(&self.database.rows, user.id);
        if at < self.database.rows.len() {
            self.database.rows[at].username = user.username.clone();
            self.database.rows[at].first_name = user.first_name.clone();
            self.database.rows[at].last_name = user.last_name.clone();
            assert forall|day: Seq<char>| self.table() == #[trigger] register(
                before,
                user@,
                day,
            ) by {
                assert(self.table() =~= register(before, user@, day));
            }
            proof {
                lemma_register(before, user@, Seq::empty());
            }
            true
        } else {
            false
        }
    }

    /// Registers `user` on the day `today`. A new identity gets a row
    /// without coins; a known one keeps its coins and its daily count and
    /// bears the names of `user` from now on.
    pub fn add_user_on(&mut self, user: &UserData, today: &String) -> (did: Registration)
        requires
            old(self).wf(),
        ensures
            final(self).wf(),
            final(self).settings() == old(self).settings(),
            final(self).table() == register(old(self).table(), user@, today@),
            did == (if has_id(old(self).table(), user@.id) {
                Registration::AlreadyExists
            } else {
                Registration::Created
            }),
    {
        let ghost before = self.table();
        if self.refresh_names(user) {
            Registration::AlreadyExists
        } else {
            proof {
                lemma_id_position_is_first(before, user@.id);
            }
            self.database.rows.push(
                UserRow {
                    id: user.id,
                    username: user.username.clone(),
                    first_name: user.first_name.clone(),
                    last_name: user.last_name.clone(),
                    current_date: today.clone(),
                    coins_per_day: 0,
                    coins: 0,
                },
            );
            assert(self.table() =~= register(before, user@, today@));
            Registration::Created
        }
    }

    /// Registers `user` now. A known identity is registered again without
    /// a look at the clock. A new one gets a row of the current day in
    /// UTC, or nothing changes where the clock cannot be read.
    pub fn add_user(&mut self, user: &UserData) -> (r: Result<Registration, LedgerError>)
        requires
            old(self).wf(),
        ensures
            final(self).wf(),
            final(self).settings() == old(self).settings(),
            has_id(old(self).table(), user@.id) ==> r == Ok::<Registration, LedgerError>(
                Registration::AlreadyExists,
            ) && forall|day: Seq<char>|
                final(self).table() == #[trigger] register(old(self).table(), user@, day),
            !has_id(old(self).table(), user@.id) ==> (r == Err::<Registration, LedgerError>(
                LedgerError::NoClock,
            ) && final(self).table() == old(self).table()) || (r == Ok::<
                Registration,
                LedgerError,
            >(Registration::Created) && exists|day: CalendarDay|
                day.is_valid() && final(self).table() == register(
                    old(self).table(),
                    user@,
                    day.text(),
                )),
    {
        if self.refresh_names(user) {
            return Ok(Registration::AlreadyExists);
        }
        match today_text() {
            Some(today) => Ok(self.add_user_on(user, &today)),
            None => Err(LedgerError::NoClock),
        }
    }
}

} // verus!

//! The table of members as numbers and characters: what its rows hold,
//! what the operations of the ledger make of it, and what holds of them.

use vstd::prelude::*;

verus! {

/// The daily allowance of a member as numbers and characters.
pub struct Quota {
    pub count: int,
    pub date: Seq<char>,
}

/// A participant as numbers and characters.
pub struct Person {
    pub id: u64,
    pub username: Seq<char>,
    pub first_name: Seq<char>,
    pub last_name: Seq<char>,
}

/// One row of the table as numbers and characters.
pub struct Row {
    pub id: u64,
    pub username: Seq<char>,
    pub first_name: Seq<char>,
    pub last_name: Seq<char>,
    pub current_date: Seq<char>,
    pub coins_per_day: int,
    pub coins: nat,
}

/// The position of the first row that bears `name`, or the number of rows
/// where none does.
pub open spec fn position(table: Seq<Row>, name: Seq<char>) -> int
    decreases table.len(),
{
    if table.len() == 0 || table[0].username == name {
        0
    } else {
        1 + position(table.drop_first(), name)
    }
}

/// Whether a row bears `name`.
pub open spec fn has_user(table: Seq<Row>, name: Seq<char>) -> bool {
    position(table, name) < table.len()
}

/// The coins of the first row that bears `name`; 0 where none does.
pub open spec fn balance_of(table: Seq<Row>, name: Seq<char>) -> nat {
    if has_user(table, name) {
        table[position(table, name)].coins
    } else {
        0
    }
}

/// The daily allowance in the first row that bears `name`.
pub open spec fn quota_of(table: Seq<Row>, name: Seq<char>) -> Option<Quota> {
    if has_user(table, name) {
        let row = table[position(table, name)];
        Some(Quota { count: row.coins_per_day, date: row.current_date })
    } else {
        None
    }
}

/// The identity in the first row that bears `name`.
pub open spec fn id_of(table: Seq<Row>, name: Seq<char>) -> Option<u64> {
    if has_user(table, name) {
        Some(table[position(table, name)].id)
    } else {
        None
    }
}

/// `position` is the one place before which no row bears `name` and at
/// which the table ends or a row bears it.
pub proof fn lemma_position(table: Seq<Row>, name: Seq<char>, at: int)
    requires
        0 <= at <= table.len(),
        forall|k: int| 0 <= k < at ==> table[k].username != name,
        at == table.len() || table[at].username == name,
    ensures
        position(table, name) == at,
    decreases table.len(),
{
    if table.len() == 0 || table[0].username == name {
    } else {
        let rest = table.drop_first();
        assert forall|k: int| 0 <= k < at - 1 implies rest[k].username != name by {
            assert(rest[k] == table[k + 1]);
        }
        lemma_position(rest, name, at - 1);
    }
}

/// What `position` points at: the first row that bears `name`.
pub proof fn lemma_position_is_first(table: Seq<Row>, name: Seq<char>)
    ensures
        0 <= position(table, name) <= table.len(),
        forall|k: int| 0 <= k < position(table, name) ==> table[k].username != name,
        has_user(table, name) ==> table[position(table, name)].username == name,
    decreases table.len(),
{
    if table.len() == 0 || table[0].username == name {
    } else {
        let rest = table.drop_first();
        lemma_position_is_first(rest, name);
        assert forall|k: int| 0 <= k < position(table, name) implies table[k].username
            != name by {
            if k > 0 {
                assert(rest[k - 1] == table[k]);
            }
        }
        if has_user(table, name) {
            assert(rest[position(rest, name)] == table[position(table, name)]);
        }
    }
}

/// A well-formed table: no identity stands in two rows, and no daily count
/// is negative.
pub open spec fn well_formed(table: Seq<Row>) -> bool {
    &&& forall|i: int, j: int|
        0 <= i < table.len() && 0 <= j < table.len() && i != j ==> table[i].id != table[j].id
    &&& forall|i: int| 0 <= i < table.len() ==> table[i].coins_per_day >= 0
}

/// A row after it has received one coin.
pub open spec fn credited(row: Row) -> Row {
    Row { coins: row.coins + 1, ..row }
}

/// The table after every row that bears `name` has received one coin.
pub open spec fn credit(table: Seq<Row>, name: Seq<char>) -> Seq<Row> {
    table.map_values(|row: Row| if row.username == name { credited(row) } else { row })
}

/// Whether every row that bears `name` can hold one coin more.
pub open spec fn can_credit(table: Seq<Row>, name: Seq<char>) -> bool {
    forall|i: int|
        0 <= i < table.len() && (#[trigger] table[i]).username == name ==> table[i].coins
            < u64::MAX
}

/// A row after one more coin was given away on its day.
pub open spec fn counted(row: Row) -> Row {
    Row { coins_per_day: row.coins_per_day + 1, ..row }
}

/// The table after every row that bears `name` has counted one coin more
/// as given away.
pub open spec fn count_up(table: Seq<Row>, name: Seq<char>) -> Seq<Row> {
    table.map_values(|row: Row| if row.username == name { counted(row) } else { row })
}

/// Whether every row that bears `name` can count one coin more.
pub open spec fn can_count(table: Seq<Row>, name: Seq<char>) -> bool {
    forall|i: int|
        0 <= i < table.len() && (#[trigger] table[i]).username == name
            ==> table[i].coins_per_day < i32::MAX
}

/// A row at the start of the day `date`.
pub open spec fn renewed(row: Row, date: Seq<char>) -> Row {
    Row { coins_per_day: 0, current_date: date, ..row }
}

/// The table after every row that bears `name` has started the day `date`.
pub open spec fn reset(table: Seq<Row>, name: Seq<char>, date: Seq<char>) -> Seq<Row> {
    table.map_values(|row: Row| if row.username == name { renewed(row, date) } else { row })
}

/// Tables whose rows bear the same usernames hold every username at the
/// same place.
pub proof fn lemma_same_names(a: Seq<Row>, b: Seq<Row>, name: Seq<char>)
    requires
        a.len() == b.len(),
        forall|i: int| 0 <= i < a.len() ==> a[i].username == b[i].username,
    ensures
        position(a, name) == position(b, name),
        has_user(a, name) == has_user(b, name),
{
    lemma_position_is_first(a, name);
    lemma_position(b, name, position(a, name));
}

/// A coin for `name` adds no row and takes none away. A row that bears
/// `name` has one coin more and is otherwise as it was: identity, names,
/// daily count and day. Every other row is as it was.
pub proof fn lemma_credit_rows(table: Seq<Row>, name: Seq<char>)
    ensures
        credit(table, name).len() == table.len(),
        forall|i: int|
            0 <= i < table.len() ==> #[trigger] credit(table, name)[i] == (if table[i].username
                == name {
                Row { coins: table[i].coins + 1, ..table[i] }
            } else {
                table[i]
            }),
{
}

/// A coin for `name` raises the balance of `name` by one, if a member
/// bears that username. It leaves every other balance, every allowance
/// and every identity as they were.
pub proof fn lemma_credit(table: Seq<Row>, name: Seq<char>, who: Seq<char>)
    ensures
        has_user(credit(table, name), who) == has_user(table, who),
        balance_of(credit(table, name), who) == balance_of(table, who) + (if who == name
            && has_user(table, who) {
            1nat
        } else {
            0nat
        }),
        quota_of(credit(table, name), who) == quota_of(table, who),
        id_of(credit(table, name), who) == id_of(table, who),
        well_formed(table) ==> well_formed(credit(table, name)),
{
    lemma_same_names(table, credit(table, name), who);
    lemma_position_is_first(table, who);
}

/// Counting a coin for `name` raises the daily count of `name` by one. It
/// leaves every balance, every other allowance and every identity as they
/// were.
pub proof fn lemma_count_up(table: Seq<Row>, name: Seq<char>, who: Seq<char>)
    ensures
        has_user(count_up(table, name), who) == has_user(table, who),
        balance_of(count_up(table, name), who) == balance_of(table, who),
        quota_of(count_up(table, name), who) == (match quota_of(table, who) {
            Some(quota) => Some(
                Quota {
                    count: if who == name { quota.count + 1 } else { quota.count },
                    date: quota.date,
                },
            ),
            None => None,
        }),
        id_of(count_up(table, name), who) == id_of(table, who),
        well_formed(table) ==> well_formed(count_up(table, name)),
{
    lemma_same_names(table, count_up(table, name), who);
    lemma_position_is_first(table, who);
}

/// Starting a day for `name` sets the allowance of `name` to no coin on
/// that day. It leaves every balance, every other allowance and every
/// identity as they were.
pub proof fn lemma_reset(table: Seq<Row>, name: Seq<char>, date: Seq<char>, who: Seq<char>)
    ensures
        has_user(reset(table, name, date), who) == has_user(table, who),
        balance_of(reset(table, name, date), who) == balance_of(table, who),
        quota_of(reset(table, name, date), who) == (match quota_of(table, who) {
            Some(quota) => Some(if who == name { Quota { count: 0, date } } else { quota }),
            None => None,
        }),
        id_of(reset(table, name, date), who) == id_of(table, who),
        well_formed(table) ==> well_formed(reset(table, name, date)),
{
    lemma_same_names(table, reset(table, name, date), who);
    lemma_position_is_first(table, who);
}

/// The table after `times` coins for `name`, one after the other.
pub open spec fn credit_times(table: Seq<Row>, name: Seq<char>, times: nat) -> Seq<Row>
    decreases times,
{
    if times == 0 {
        table
    } else {
        credit(credit_times(table, name, (times - 1) as nat), name)
    }
}

/// After `times` coins for a member, the member's balance is `times`
/// higher than before; a member who started without coins has `times`.
pub proof fn lemma_coins_add_up(table: Seq<Row>, name: Seq<char>, times: nat)
    requires
        has_user(table, name),
    ensures
        has_user(credit_times(table, name, times), name),
        balance_of(credit_times(table, name, times), name) == balance_of(table, name) + times,
    decreases times,
{
    if times > 0 {
        lemma_coins_add_up(table, name, (times - 1) as nat);
        lemma_credit(credit_times(table, name, (times - 1) as nat), name, name);
    }
}

/// The position of the row with the identity `id`, or the number of rows
/// where there is none.
pub open spec fn id_position(table: Seq<Row>, id: u64) -> int
    decreases table.len(),
{
    if table.len() == 0 || table[0].id == id {
        0
    } else {
        1 + id_position(table.drop_first(), id)
    }
}

/// Whether a row has the identity `id`.
pub open spec fn has_id(table: Seq<Row>, id: u64) -> bool {
    id_position(table, id) < table.len()
}

/// `id_position` is the one place before which no row has the identity and
/// at which the table ends or a row has it.
pub proof fn lemma_id_position(table: Seq<Row>, id: u64, at: int)
    requires
        0 <= at <= table.len(),
        forall|k: int| 0 <= k < at ==> table[k].id != id,
        at == table.len() || table[at].id == id,
    ensures
        id_position(table, id) == at,
    decreases table.len(),
{
    if table.len() == 0 || table[0].id == id {
    } else {
        let rest = table.drop_first();
        assert forall|k: int| 0 <= k < at - 1 implies rest[k].id != id by {
            assert(rest[k] == table[k + 1]);
        }
        lemma_id_position(rest, id, at - 1);
    }
}

/// What `id_position` points at: the first row with the identity.
pub proof fn lemma_id_position_is_first(table: Seq<Row>, id: u64)
    ensures
        0 <= id_position(table, id) <= table.len(),
        forall|k: int| 0 <= k < id_position(table, id) ==> table[k].id != id,
        has_id(table, id) ==> table[id_position(table, id)].id == id,
    decreases table.len(),
{
    if table.len() == 0 || table[0].id == id {
    } else {
        let rest = table.drop_first();
        lemma_id_position_is_first(rest, id);
        assert forall|k: int| 0 <= k < id_position(table, id) implies table[k].id != id by {
            if k > 0 {
                assert(rest[k - 1] == table[k]);
            }
        }
        if has_id(table, id) {
            assert(rest[id_position(rest, id)] == table[id_position(table, id)]);
        }
    }
}

/// A row after its member has shown up under the names of `who`.
pub open spec fn renamed(row: Row, who: Person) -> Row {
    Row { username: who.username, first_name: who.first_name, last_name: who.last_name, ..row }
}

/// The row of a member who joins on the day `today`.
pub open spec fn fresh_row(who: Person, today: Seq<char>) -> Row {
    Row {
        id: who.id,
        username: who.username,
        first_name: who.first_name,
        last_name: who.last_name,
        current_date: today,
        coins_per_day: 0,
        coins: 0,
    }
}

/// The table after `who` has registered on the day `today`: a known
/// identity gets the names of `who`, a new one gets a row of its own at the
/// end.
pub open spec fn register(table: Seq<Row>, who: Person, today: Seq<char>) -> Seq<Row> {
    if has_id(table, who.id) {
        let at = id_position(table, who.id);
        table.update(at, renamed(table[at], who))
    } else {
        table.push(fresh_row(who, today))
    }
}

/// After a registration the table is well-formed and has one row with the
/// identity of `who`. The row bears the names of `who`. It has the coins
/// and the allowance that the identity had before, or no coins and the
/// day `today` if the identity is new. Every other row is as it was.
pub proof fn lemma_register(table: Seq<Row>, who: Person, today: Seq<char>)
    requires
        well_formed(table),
    ensures
        ({
            let after = register(table, who, today);
            let at = id_position(table, who.id);
            &&& well_formed(after)
            &&& has_id(after, who.id)
            &&& id_position(after, who.id) == at
            &&& after.len() == (if has_id(table, who.id) { table.len() } else { table.len() + 1 })
            &&& after[at] == (if has_id(table, who.id) {
                renamed(table[at], who)
            } else {
                fresh_row(who, today)
            })
            &&& forall|k: int| 0 <= k < table.len() && k != at ==> after[k] == table[k]
        }),
{
    let after = register(table, who, today);
    let at = id_position(table, who.id);
    lemma_id_position_is_first(table, who.id);
    lemma_id_position(after, who.id, at);
}

/// Registration is idempotent. Registering an identity a second time adds
/// no row and changes no coins and no allowance; the row bears the names
/// of the second registration. With the same names the second
/// registration changes nothing at all.
pub proof fn lemma_register_twice(
    table: Seq<Row>,
    first: Person,
    first_day: Seq<char>,
    second: Person,
    second_day: Seq<char>,
)
    requires
        well_formed(table),
        first.id == second.id,
    ensures
        ({
            let once = register(table, first, first_day);
            let twice = register(once, second, second_day);
            let at = id_position(once, first.id);
            &&& well_formed(twice)
            &&& twice.len() == once.len()
            &&& twice[at] == renamed(once[at], second)
            &&& twice[at].coins == once[at].coins
            &&& twice[at].coins_per_day == once[at].coins_per_day
            &&& twice[at].current_date == once[at].current_date
            &&& forall|k: int| 0 <= k < once.len() && k != at ==> twice[k] == once[k]
            &&& second == first ==> twice == once
        }),
{
    let once = register(table, first, first_day);
    let twice = register(once, second, second_day);
    lemma_register(table, first, first_day);
    lemma_register(once, second, second_day);
    if second == first {
        assert(twice =~= once);
    }
}

/// A member who has just joined under a username that nobody bore can be
/// given coins one after the other for as long as a balance can hold one
/// more, and has as many coins as were given. Every other row is as it
/// was.
pub proof fn lemma_new_member_awards(
    table: Seq<Row>,
    who: Person,
    today: Seq<char>,
    times: nat,
)
    requires
        well_formed(table),
        !has_id(table, who.id),
        !has_user(table, who.username),
        times <= u64::MAX,
    ensures
        ({
            let joined = register(table, who, today);
            let after = credit_times(joined, who.username, times);
            &&& after.len() == table.len() + 1
            &&& forall|i: int| 0 <= i < table.len() ==> #[trigger] after[i] == table[i]
            &&& after[table.len() as int] == (Row { coins: times, ..fresh_row(who, today) })
            &&& has_user(after, who.username)
            &&& balance_of(after, who.username) == times
            &&& times < u64::MAX ==> can_credit(after, who.username)
        }),
    decreases times,
{
    let name = who.username;
    let joined = register(table, who, today);
    let after = credit_times(joined, name, times);
    lemma_position_is_first(table, name);
    if times > 0 {
        let before = credit_times(joined, name, (times - 1) as nat);
        lemma_new_member_awards(table, who, today, (times - 1) as nat);
        assert(after == credit(before, name));
        assert forall|i: int| 0 <= i < table.len() implies #[trigger] after[i] == table[i] by {
            assert(before[i] == table[i]);
        }
    }
    assert forall|k: int| 0 <= k < table.len() implies after[k].username != name by {
        assert(after[k] == table[k]);
    }
    lemma_position(after, name, table.len() as int);
    if times < u64::MAX {
        assert forall|i: int|
            0 <= i < after.len() && (#[trigger] after[i]).username == name implies after[i].coins
            < u64::MAX by {
            if i < table.len() {
                assert(after[i] == table[i]);
            }
        }
    }
}

} // verus!

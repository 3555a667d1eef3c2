//! The ranking of members by their coins.

use vstd::prelude::*;
use crate::chat_server::{model, UserRow};
use crate::table::Row;
use crate::text::{decimal, write_decimal};

verus! {

/// One line of the ranking: the coins of all rows that share the three
/// names.
#[derive(Debug)]
pub struct LeaderRow {
    pub first_name: String,
    pub last_name: String,
    pub username: String,
    pub coins: u128,
}

/// One line of the ranking as numbers and characters.
pub struct Standing {
    pub first_name: Seq<char>,
    pub last_name: Seq<char>,
    pub username: Seq<char>,
    pub coins: nat,
}

impl View for LeaderRow {
    type V = Standing;

    open spec fn view(&self) -> Standing {
        Standing {
            first_name: self.first_name@,
            last_name: self.last_name@,
            username: self.username@,
            coins: self.coins as nat,
        }
    }
}

/// The lines of a vector as numbers and characters.
pub open spec fn standings(lines: Seq<LeaderRow>) -> Seq<Standing> {
    lines.map_values(|line: LeaderRow| line@)
}

/// Whether a row counts towards a line: it bears the same three names.
pub open spec fn belongs_to(row: Row, line: Standing) -> bool {
    &&& row.first_name == line.first_name
    &&& row.last_name == line.last_name
    &&& row.username == line.username
}

/// The position of the line that `row` counts towards, or the number of
/// lines where there is none.
pub open spec fn group_position(lines: Seq<Standing>, row: Row) -> int
    decreases lines.len(),
{
    if lines.len() == 0 || belongs_to(row, lines[0]) {
        0
    } else {
        1 + group_position(lines.drop_first(), row)
    }
}

/// `group_position` is the one place before which `row` counts towards no
/// line and at which the lines end or `row` counts.
pub proof fn lemma_group_position(lines: Seq<Standing>, row: Row, at: int)
    requires
        0 <= at <= lines.len(),
        forall|k: int| 0 <= k < at ==> !belongs_to(row, lines[k]),
        at == lines.len() || belongs_to(row, lines[at]),
    ensures
        group_position(lines, row) == at,
    decreases lines.len(),
{
    if lines.len() == 0 || belongs_to(row, lines[0]) {
    } else {
        let rest = lines.drop_first();
        assert forall|k: int| 0 <= k < at - 1 implies !belongs_to(row, rest[k]) by {
            assert(rest[k] == lines[k + 1]);
        }
        lemma_group_position(rest, row, at - 1);
    }
}

/// The lines after `row` has been counted: its coins go to the line with
/// its three names, or to a new line at the end.
pub open spec fn absorb(lines: Seq<Standing>, row: Row) -> Seq<Standing> {
    let at = group_position(lines, row);
    if at < lines.len() {
        lines.update(at, Standing { coins: lines[at].coins + row.coins, ..lines[at] })
    } else {
        lines.push(
            Standing {
                first_name: row.first_name,
                last_name: row.last_name,
                username: row.username,
                coins: row.coins,
            },
        )
    }
}

/// One line for each three names that occur in the table, with the sum of
/// the coins of their rows, in the order in which the names first occur.
pub open spec fn grouped(table: Seq<Row>) -> Seq<Standing>
    decreases table.len(),
{
    if table.len() == 0 {
        Seq::empty()
    } else {
        absorb(grouped(table.drop_last()), table.last())
    }
}

/// The position of the first line with fewer than `coins` coins, or the
/// number of lines where there is none.
pub open spec fn rank_position(ranked: Seq<Standing>, coins: nat) -> int
    decreases ranked.len(),
{
    if ranked.len() == 0 || ranked[0].coins < coins {
        0
    } else {
        1 + rank_position(ranked.drop_first(), coins)
    }
}

/// `rank_position` is the one place before which every line has at least
/// `coins` coins and at which the lines end or a line has fewer.
pub proof fn lemma_rank_position(ranked: Seq<Standing>, coins: nat, at: int)
    requires
        0 <= at <= ranked.len(),
        forall|k: int| 0 <= k < at ==> ranked[k].coins >= coins,
        at == ranked.len() || ranked[at].coins < coins,
    ensures
        rank_position(ranked, coins) == at,
    decreases ranked.len(),
{
    if ranked.len() == 0 || ranked[0].coins < coins {
    } else {
        let rest = ranked.drop_first();
        assert forall|k: int| 0 <= k < at - 1 implies rest[k].coins >= coins by {
            assert(rest[k] == ranked[k + 1]);
        }
        lemma_rank_position(rest, coins, at - 1);
    }
}

/// The ranking after `line` has taken its place: behind every line that
/// has at least as many coins.
pub open spec fn place(ranked: Seq<Standing>, line: Standing) -> Seq<Standing> {
    ranked.insert(rank_position(ranked, line.coins), line)
}

/// The lines by falling coins; lines with equal coins keep their order.
pub open spec fn ranking(lines: Seq<Standing>) -> Seq<Standing>
    decreases lines.len(),
{
    if lines.len() == 0 {
        Seq::empty()
    } else {
        place(ranking(lines.drop_last()), lines.last())
    }
}

/// The first `limit` lines of the ranking of the table, or all of them
/// where there are fewer.
pub open spec fn leaderboard(table: Seq<Row>, limit: nat) -> Seq<Standing> {
    let ranked = ranking(grouped(table));
    if limit < ranked.len() {
        ranked.take(limit as int)
    } else {
        ranked
    }
}

/// Whether two lines bear the same three names.
pub open spec fn same_names(a: Standing, b: Standing) -> bool {
    &&& a.first_name == b.first_name
    &&& a.last_name == b.last_name
    &&& a.username == b.username
}

/// Whether no two lines bear the same three names.
pub open spec fn names_differ(lines: Seq<Standing>) -> bool {
    forall|i: int, j: int|
        0 <= i < lines.len() && 0 <= j < lines.len() && i != j ==> !same_names(lines[i], lines[j])
}

/// Whether no line has more coins than a line before it.
pub open spec fn by_falling_coins(lines: Seq<Standing>) -> bool {
    forall|i: int, j: int| 0 <= i < j < lines.len() ==> lines[i].coins >= lines[j].coins
}

/// The coins of all rows of the table that count towards `line`.
pub open spec fn coins_of(table: Seq<Row>, line: Standing) -> nat
    decreases table.len(),
{
    if table.len() == 0 {
        0
    } else if belongs_to(table.last(), line) {
        coins_of(table.drop_last(), line) + table.last().coins
    } else {
        coins_of(table.drop_last(), line)
    }
}

/// The coins that count towards a line depend on its three names alone.
pub proof fn lemma_coins_of_names(table: Seq<Row>, a: Standing, b: Standing)
    requires
        same_names(a, b),
    ensures
        coins_of(table, a) == coins_of(table, b),
    decreases table.len(),
{
    if table.len() > 0 {
        lemma_coins_of_names(table.drop_last(), a, b);
    }
}

/// What `group_position` points at: the first line that `row` counts
/// towards.
pub proof fn lemma_group_position_is_first(lines: Seq<Standing>, row: Row)
    ensures
        0 <= group_position(lines, row) <= lines.len(),
        forall|k: int| 0 <= k < group_position(lines, row) ==> !belongs_to(row, lines[k]),
        group_position(lines, row) < lines.len() ==> belongs_to(
            row,
            lines[group_position(lines, row)],
        ),
    decreases lines.len(),
{
    if lines.len() == 0 || belongs_to(row, lines[0]) {
    } else {
        let rest = lines.drop_first();
        lemma_group_position_is_first(rest, row);
        assert forall|k: int| 0 <= k < group_position(lines, row) implies !belongs_to(
            row,
            lines[k],
        ) by {
            if k > 0 {
                assert(rest[k - 1] == lines[k]);
            }
        }
        if group_position(lines, row) < lines.len() {
            assert(rest[group_position(rest, row)] == lines[group_position(lines, row)]);
        }
    }
}

/// The lines of a table are as many as the three names that occur in it:
/// no two lines bear the same names, every row counts towards a line, and
/// every line has a row. The coins of a line are the sum of the coins of
/// its rows.
pub proof fn lemma_grouped(table: Seq<Row>)
    ensures
        grouped(table).len() <= table.len(),
        names_differ(grouped(table)),
        forall|k: int|
            0 <= k < grouped(table).len() ==> (#[trigger] grouped(table)[k]).coins == coins_of(
                table,
                grouped(table)[k],
            ),
        forall|r: int|
            0 <= r < table.len() ==> group_position(grouped(table), #[trigger] table[r]) < grouped(
                table,
            ).len(),
        forall|k: int|
            0 <= k < grouped(table).len() ==> exists|r: int|
                0 <= r < table.len() && belongs_to(table[r], #[trigger] grouped(table)[k]),
    decreases table.len(),
{
    if table.len() > 0 {
        let rest = table.drop_last();
        let row = table.last();
        let lines = grouped(rest);
        let after = grouped(table);
        let at = group_position(lines, row);
        lemma_grouped(rest);
        lemma_group_position_is_first(lines, row);
        assert forall|i: int, j: int|
            0 <= i < after.len() && 0 <= j < after.len() && i != j implies !same_names(
            after[i],
            after[j],
        ) by {
            if at < lines.len() {
                assert(same_names(after[i], lines[i]));
                assert(same_names(after[j], lines[j]));
                assert(!same_names(lines[i], lines[j]));
            } else {
                if i < lines.len() && j < lines.len() {
                    assert(after[i] == lines[i] && after[j] == lines[j]);
                    assert(!same_names(lines[i], lines[j]));
                } else if i < lines.len() {
                    assert(after[i] == lines[i]);
                    assert(belongs_to(row, after[j]));
                    assert(!belongs_to(row, lines[i]));
                } else {
                    assert(after[j] == lines[j]);
                    assert(belongs_to(row, after[i]));
                    assert(!belongs_to(row, lines[j]));
                }
            }
        }
        assert forall|k: int| 0 <= k < after.len() implies (#[trigger] after[k]).coins == coins_of(
            table,
            after[k],
        ) by {
            if k < lines.len() {
                lemma_coins_of_names(rest, lines[k], after[k]);
                if k != at {
                    assert(!belongs_to(row, lines[k])) by {
                        if at < lines.len() && belongs_to(row, lines[k]) {
                            assert(same_names(lines[k], lines[at]));
                        }
                    }
                }
            } else {
                lemma_no_rows_yet(rest, after[k]);
            }
        }
        assert forall|r: int| 0 <= r < table.len() implies group_position(
            after,
            #[trigger] table[r],
        ) < after.len() by {
            if r < rest.len() {
                assert(table[r] == rest[r]);
                let old_at = group_position(lines, rest[r]);
                lemma_group_position_is_first(lines, rest[r]);
                lemma_group_position_is_first(after, table[r]);
                assert(same_names(after[old_at], lines[old_at]));
                assert(belongs_to(table[r], after[old_at]));
            } else {
                lemma_group_position_is_first(after, row);
                if at < lines.len() {
                    assert(same_names(after[at], lines[at]));
                    assert(belongs_to(row, after[at]));
                } else {
                    assert(belongs_to(row, after[at]));
                }
            }
        }
        assert forall|k: int| 0 <= k < after.len() implies exists|r: int|
            0 <= r < table.len() && belongs_to(table[r], #[trigger] after[k]) by {
            if k < lines.len() {
                let r = choose|r: int| 0 <= r < rest.len() && belongs_to(rest[r], lines[k]);
                assert(table[r] == rest[r]);
                assert(same_names(after[k], lines[k]));
                assert(belongs_to(table[r], after[k]));
            } else {
                assert(belongs_to(table[table.len() - 1], after[k]));
            }
        }
    }
}

/// Whether no two rows bear the same three names.
pub open spec fn rows_differ(table: Seq<Row>) -> bool {
    forall|i: int, j: int|
        0 <= i < table.len() && 0 <= j < table.len() && i != j ==> !(table[i].first_name
            == table[j].first_name && table[i].last_name == table[j].last_name
            && table[i].username == table[j].username)
}

/// The line of a row that shares its names with no other row.
pub open spec fn line_of(row: Row) -> Standing {
    Standing {
        first_name: row.first_name,
        last_name: row.last_name,
        username: row.username,
        coins: row.coins,
    }
}

/// Where no two rows bear the same three names, every row has a line of
/// its own: the table has as many lines as rows.
pub proof fn lemma_grouped_one_by_one(table: Seq<Row>)
    requires
        rows_differ(table),
    ensures
        grouped(table) == table.map_values(|row: Row| line_of(row)),
        grouped(table).len() == table.len(),
    decreases table.len(),
{
    if table.len() > 0 {
        let rest = table.drop_last();
        let row = table.last();
        let lines = grouped(rest);
        assert forall|i: int, j: int|
            0 <= i < rest.len() && 0 <= j < rest.len() && i != j implies !(rest[i].first_name
            == rest[j].first_name && rest[i].last_name == rest[j].last_name && rest[i].username
            == rest[j].username) by {
            assert(rest[i] == table[i] && rest[j] == table[j]);
        }
        lemma_grouped_one_by_one(rest);
        assert forall|k: int| 0 <= k < lines.len() implies !belongs_to(row, lines[k]) by {
            assert(lines[k] == line_of(rest[k]));
            assert(rest[k] == table[k]);
            assert(row == table[table.len() - 1]);
        }
        lemma_group_position(lines, row, lines.len() as int);
        assert(grouped(table) =~= table.map_values(|row: Row| line_of(row)));
    } else {
        assert(grouped(table) =~= table.map_values(|row: Row| line_of(row)));
    }
}

/// A line that no row of the table counts towards gets no coins from it.
proof fn lemma_no_rows_yet(table: Seq<Row>, line: Standing)
    requires
        forall|k: int| 0 <= k < grouped(table).len() ==> !same_names(grouped(table)[k], line),
    ensures
        coins_of(table, line) == 0,
    decreases table.len(),
{
    if table.len() > 0 {
        let rest = table.drop_last();
        let row = table.last();
        let lines = grouped(rest);
        let after = grouped(table);
        let at = group_position(lines, row);
        lemma_group_position_is_first(lines, row);
        assert forall|k: int| 0 <= k < lines.len() implies !same_names(lines[k], line) by {
            assert(same_names(after[k], lines[k]));
        }
        lemma_no_rows_yet(rest, line);
        if belongs_to(row, line) {
            if at < lines.len() {
                assert(same_names(after[at], line));
            } else {
                assert(same_names(after[at], line));
            }
        }
    }
}

/// What `rank_position` points at: the first line with fewer coins.
pub proof fn lemma_rank_position_is_first(ranked: Seq<Standing>, coins: nat)
    ensures
        0 <= rank_position(ranked, coins) <= ranked.len(),
        forall|k: int| 0 <= k < rank_position(ranked, coins) ==> ranked[k].coins >= coins,
        rank_position(ranked, coins) < ranked.len() ==> ranked[rank_position(ranked, coins)].coins
            < coins,
    decreases ranked.len(),
{
    if ranked.len() == 0 || ranked[0].coins < coins {
    } else {
        let rest = ranked.drop_first();
        lemma_rank_position_is_first(rest, coins);
        assert forall|k: int| 0 <= k < rank_position(ranked, coins) implies ranked[k].coins
            >= coins by {
            if k > 0 {
                assert(rest[k - 1] == ranked[k]);
            }
        }
        if rank_position(ranked, coins) < ranked.len() {
            assert(rest[rank_position(rest, coins)] == ranked[rank_position(ranked, coins)]);
        }
    }
}

/// The ranking holds the same lines, each as often as before, by falling
/// coins. Lines with different names stay lines with different names.
pub proof fn lemma_ranking(lines: Seq<Standing>)
    ensures
        ranking(lines).len() == lines.len(),
        ranking(lines).to_multiset() == lines.to_multiset(),
        by_falling_coins(ranking(lines)),
        forall|i: int| 0 <= i < lines.len() ==> lines.contains(#[trigger] ranking(lines)[i]),
        names_differ(lines) ==> names_differ(ranking(lines)),
    decreases lines.len(),
{
    if lines.len() == 0 {
        assert(ranking(lines) =~= lines);
    } else {
        let rest = lines.drop_last();
        let line = lines.last();
        let ranked = ranking(rest);
        let at = rank_position(ranked, line.coins);
        let after = ranking(lines);
        lemma_ranking(rest);
        lemma_rank_position_is_first(ranked, line.coins);
        vstd::seq_lib::to_multiset_insert(ranked, at, line);
        vstd::seq_lib::to_multiset_build(rest, line);
        assert(rest.push(line) =~= lines);
        assert forall|i: int, j: int| 0 <= i < j < after.len() implies after[i].coins
            >= after[j].coins by {
            if j < at {
            } else if j == at {
            } else if i < at {
                assert(after[j] == ranked[j - 1]);
                assert(ranked[at].coins >= ranked[j - 1].coins || j - 1 == at);
            } else if i == at {
                assert(after[j] == ranked[j - 1]);
                assert(ranked[at].coins >= ranked[j - 1].coins || j - 1 == at);
            } else {
                assert(after[i] == ranked[i - 1]);
                assert(after[j] == ranked[j - 1]);
            }
        }
        assert forall|i: int| 0 <= i < lines.len() implies lines.contains(
            #[trigger] after[i],
        ) by {
            if i == at {
                assert(lines[lines.len() - 1] == line);
            } else {
                let from = if i < at { i } else { i - 1 };
                assert(after[i] == ranked[from]);
                assert(rest.contains(ranked[from]));
                let k = choose|k: int| 0 <= k < rest.len() && rest[k] == ranked[from];
                assert(lines[k] == rest[k]);
            }
        }
        if names_differ(lines) {
            assert(names_differ(rest)) by {
                assert forall|i: int, j: int|
                    0 <= i < rest.len() && 0 <= j < rest.len() && i != j implies !same_names(
                    rest[i],
                    rest[j],
                ) by {
                    assert(rest[i] == lines[i] && rest[j] == lines[j]);
                }
            }
            assert forall|k: int| 0 <= k < ranked.len() implies !same_names(ranked[k], line) by {
                assert(rest.contains(ranked[k]));
                let m = choose|m: int| 0 <= m < rest.len() && rest[m] == ranked[k];
                assert(lines[m] == rest[m]);
                assert(!same_names(lines[m], lines[lines.len() - 1]));
            }
            assert forall|i: int, j: int|
                0 <= i < after.len() && 0 <= j < after.len() && i != j implies !same_names(
                after[i],
                after[j],
            ) by {
                let from_i = if i < at { i } else { i - 1 };
                let from_j = if j < at { j } else { j - 1 };
                if i == at {
                    assert(after[j] == ranked[from_j]);
                } else if j == at {
                    assert(after[i] == ranked[from_i]);
                } else {
                    assert(after[i] == ranked[from_i]);
                    assert(after[j] == ranked[from_j]);
                }
            }
        }
    }
}

/// The leaderboard holds the lines with the most coins, by falling coins:
/// as many as `limit` allows and the table has names for. Each of its
/// lines stands for three names of the table that no other line stands
/// for, with the sum of the coins of their rows, and no line that is left
/// out has more coins than one that is shown.
pub proof fn lemma_leaderboard(table: Seq<Row>, limit: nat)
    ensures
        ({
            let top = leaderboard(table, limit);
            let all = ranking(grouped(table));
            &&& all.len() == grouped(table).len()
            &&& top.len() == (if limit < all.len() { limit } else { all.len() })
            &&& top.len() <= table.len()
            &&& by_falling_coins(top)
            &&& names_differ(top)
            &&& forall|i: int| 0 <= i < top.len() ==> (#[trigger] top[i]).coins == coins_of(table, top[i])
            &&& forall|i: int|
                0 <= i < top.len() ==> exists|r: int|
                    0 <= r < table.len() && belongs_to(table[r], #[trigger] top[i])
            &&& forall|i: int, j: int|
                0 <= i < top.len() <= j < all.len() ==> top[i].coins >= (#[trigger] all[j]).coins
                    && top[i] == #[trigger] all[i]
        }),
{
    let lines = grouped(table);
    let all = ranking(lines);
    let top = leaderboard(table, limit);
    lemma_grouped(table);
    lemma_ranking(lines);
    assert forall|i: int| 0 <= i < top.len() implies (#[trigger] top[i]).coins == coins_of(
        table,
        top[i],
    ) && exists|r: int| 0 <= r < table.len() && belongs_to(table[r], top[i]) by {
        assert(top[i] == all[i]);
        assert(lines.contains(all[i]));
        let k = choose|k: int| 0 <= k < lines.len() && lines[k] == all[i];
        assert(lines[k].coins == coins_of(table, lines[k]));
    }
    assert(names_differ(top)) by {
        assert forall|i: int, j: int|
            0 <= i < top.len() && 0 <= j < top.len() && i != j implies !same_names(
            top[i],
            top[j],
        ) by {
            assert(top[i] == all[i] && top[j] == all[j]);
        }
    }
}

/// A line with the same content.
fn copy_line(line: &LeaderRow) -> (copy: LeaderRow)
    ensures
        copy@ == line@,
{
    LeaderRow {
        first_name: line.first_name.clone(),
        last_name: line.last_name.clone(),
        username: line.username.clone(),
        coins: line.coins,
    }
}

/// The place of the line that `row` counts towards, or the number of lines.
fn find_group(lines: &Vec<LeaderRow>, row: &UserRow) -> (at: usize)
    ensures
        at == group_position(standings(lines@), row@),
        at <= lines@.len(),
{
    let n: usize = lines.len();
    let mut i: usize = 0;
    while i < n
        invariant
            n == lines@.len(),
            i <= n,
            forall|k: int| 0 <= k < i ==> !belongs_to(row@, standings(lines@)[k]),
        decreases n - i,
    {
        if lines[i].first_name == row.first_name && lines[i].last_name == row.last_name
            && lines[i].username == row.username {
            proof {
                lemma_group_position(standings(lines@), row@, i as int);
            }
            return i;
        }
        i += 1;
    }
    proof {
        lemma_group_position(standings(lines@), row@, n as int);
    }
    n
}

/// One line for each three names that occur in the rows.
pub fn group_rows(rows: &Vec<UserRow>) -> (lines: Vec<LeaderRow>)
    ensures
        standings(lines@) == grouped(model(rows@)),
{
    let n: usize = rows.len();
    let mut lines: Vec<LeaderRow> = Vec::new();
    let mut i: usize = 0;
    assert(model(rows@).take(0) =~= Seq::<Row>::empty());
    assert(standings(lines@) =~= Seq::<Standing>::empty());
    while i < n
        invariant
            n == rows@.len(),
            i <= n,
            standings(lines@) == grouped(model(rows@).take(i as int)),
            forall|k: int| 0 <= k < lines@.len() ==> (#[trigger] lines@[k]).coins <= i * u64::MAX,
        decreases n - i,
    {
        let ghost before = standings(lines@);
        proof {
            let upto = model(rows@).take(i + 1);
            assert(upto.drop_last() =~= model(rows@).take(i as int));
            assert(upto.last() == rows@[i as int]@);
            assert(i * u64::MAX + u64::MAX == (i + 1) * u64::MAX) by (nonlinear_arith);
            assert((i + 1) * u64::MAX <= u128::MAX) by (nonlinear_arith)
                requires
                    i < usize::MAX,
                    usize::MAX <= u64::MAX,
            ;
            assert forall|k: int| 0 <= k < lines@.len() implies (#[trigger] lines@[k]).coins <= (i
                + 1) * u64::MAX by {
                assert(i * u64::MAX <= (i + 1) * u64::MAX) by (nonlinear_arith);
            }
        }
        let at = find_group(&lines, &rows[i]);
        if at < lines.len() {
            lines[at].coins = lines[at].coins + rows[i].coins as u128;
        } else {
            lines.push(
                LeaderRow {
                    first_name: rows[i].first_name.clone(),
                    last_name: rows[i].last_name.clone(),
                    username: rows[i].username.clone(),
                    coins: rows[i].coins as u128,
                },
            );
        }
        assert(standings(lines@) =~= absorb(before, rows@[i as int]@));
        i += 1;
    }
    assert(model(rows@).take(n as int) =~= model(rows@));
    lines
}

/// The place of the first line with fewer than `coins` coins, or the
/// number of lines.
fn find_rank(ranked: &Vec<LeaderRow>, coins: u128) -> (at: usize)
    ensures
        at == rank_position(standings(ranked@), coins as nat),
        at <= ranked@.len(),
{
    let n: usize = ranked.len();
    let mut i: usize = 0;
    while i < n
        invariant
            n == ranked@.len(),
            i <= n,
            forall|k: int| 0 <= k < i ==> standings(ranked@)[k].coins >= coins,
        decreases n - i,
    {
        if ranked[i].coins < coins {
            proof {
                lemma_rank_position(standings(ranked@), coins as nat, i as int);
            }
            return i;
        }
        i += 1;
    }
    proof {
        lemma_rank_position(standings(ranked@), coins as nat, n as int);
    }
    n
}

/// The lines by falling coins; lines with equal coins keep their order.
pub fn rank(lines: &Vec<LeaderRow>) -> (ranked: Vec<LeaderRow>)
    ensures
        standings(ranked@) == ranking(standings(lines@)),
{
    let n: usize = lines.len();
    let mut ranked: Vec<LeaderRow> = Vec::new();
    let mut i: usize = 0;
    assert(standings(lines@).take(0) =~= Seq::<Standing>::empty());
    assert(standings(ranked@) =~= Seq::<Standing>::empty());
    while i < n
        invariant
            n == lines@.len(),
            i <= n,
            standings(ranked@) == ranking(standings(lines@).take(i as int)),
        decreases n - i,
    {
        let ghost before = standings(ranked@);
        proof {
            let upto = standings(lines@).take(i + 1);
            assert(upto.drop_last() =~= standings(lines@).take(i as int));
            assert(upto.last() == lines@[i as int]@);
        }
        let line = copy_line(&lines[i]);
        let at = find_rank(&ranked, line.coins);
        ranked.insert(at, line);
        assert(standings(ranked@) =~= place(before, lines@[i as int]@));
        i += 1;
    }
    assert(standings(lines@).take(n as int) =~= standings(lines@));
    ranked
}

/// The first `limit` lines of the ranking of the rows, or all of them
/// where there are fewer.
pub fn top_rows(rows: &Vec<UserRow>, limit: usize) -> (top: Vec<LeaderRow>)
    ensures
        standings(top@) == leaderboard(model(rows@), limit as nat),
{
    let lines = group_rows(rows);
    let mut ranked = rank(&lines);
    if limit < ranked.len() {
        let ghost before = standings(ranked@);
        ranked.truncate(limit);
        assert(standings(ranked@) =~= before.take(limit as int));
    }
    ranked
}

/// What stands before the line of a rank: a medal for the first three.
pub open spec fn medal(rank: int) -> Seq<char> {
    if rank == 0 {
        "🥇 "@
    } else if rank == 1 {
        "🥈 "@
    } else if rank == 2 {
        "🥉 "@
    } else {
        "       "@
    }
}

/// The text of one line of the ranking; ranks count from 0.
pub open spec fn ranking_line(rank: int, line: Standing) -> Seq<char> {
    medal(rank) + decimal(line.coins) + " \\- "@ + line.first_name + " "@ + line.last_name
        + " \\(@"@ + line.username + "\\)\n"@
}

/// The text of the lines of a ranking, one after the other.
pub open spec fn ranking_lines(lines: Seq<Standing>) -> Seq<char>
    decreases lines.len(),
{
    if lines.len() == 0 {
        Seq::empty()
    } else {
        ranking_lines(lines.drop_last()) + ranking_line(lines.len() - 1, lines.last())
    }
}

/// The text of a ranking: its title and its lines.
pub open spec fn ranking_text(lines: Seq<Standing>) -> Seq<char> {
    "*Рейтинг*\n"@ + ranking_lines(lines)
}

/// What stands before the line of a rank.
fn medal_str(rank: usize) -> (text: &'static str)
    ensures
        text@ == medal(rank as int),
{
    if rank == 0 {
        "🥇 "
    } else if rank == 1 {
        "🥈 "
    } else if rank == 2 {
        "🥉 "
    } else {
        "       "
    }
}

/// Writes a ranking as text.
pub fn write_ranking(lines: &Vec<LeaderRow>) -> (text: String)
    ensures
        text@ == ranking_text(standings(lines@)),
{
    let n: usize = lines.len();
    let mut text = String::from_str("*Рейтинг*\n");
    let mut i: usize = 0;
    assert(standings(lines@).take(0) =~= Seq::<Standing>::empty());
    assert(text@ =~= "*Рейтинг*\n"@ + ranking_lines(standings(lines@).take(0)));
    while i < n
        invariant
            n == lines@.len(),
            i <= n,
            text@ == "*Рейтинг*\n"@ + ranking_lines(standings(lines@).take(i as int)),
        decreases n - i,
    {
        let ghost before = text@;
        proof {
            let upto = standings(lines@).take(i + 1);
            assert(upto.drop_last() =~= standings(lines@).take(i as int));
            assert(upto.last() == lines@[i as int]@);
        }
        text.append(medal_str(i));
        let coins = write_decimal(lines[i].coins);
        text.append(coins.as_str());
        text.append(" \\- ");
        text.append(lines[i].first_name.as_str());
        text.append(" ");
        text.append(lines[i].last_name.as_str());
        text.append(" \\(@");
        text.append(lines[i].username.as_str());
        text.append("\\)\n");
        assert(text@ =~= before + ranking_line(i as int, lines@[i as int]@));
        i += 1;
    }
    assert(standings(lines@).take(n as int) =~= standings(lines@));
    text
}

} // verus!

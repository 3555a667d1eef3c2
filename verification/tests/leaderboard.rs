use group_motivation_bot::chat_server::{ChatServer, UserRow, UserTable};
use group_motivation_bot::leaderboard::{group_rows, rank, top_rows, write_ranking, LeaderRow};

fn row(id: u64, first: &str, last: &str, username: &str, coins: u64) -> UserRow {
    UserRow {
        id,
        username: username.to_string(),
        first_name: first.to_string(),
        last_name: last.to_string(),
        current_date: "2024-05-01".to_string(),
        coins_per_day: 0,
        coins,
    }
}

fn line(first: &str, last: &str, username: &str, coins: u128) -> LeaderRow {
    LeaderRow {
        first_name: first.to_string(),
        last_name: last.to_string(),
        username: username.to_string(),
        coins,
    }
}

fn server(rows: Vec<UserRow>) -> ChatServer {
    let mut cs = ChatServer::new(
        Some("secret".to_string()),
        "Coin Bot".to_string(),
        "coin_bot".to_string(),
        "coin".to_string(),
        "thanks".to_string(),
        None,
    );
    cs.database = UserTable::from_rows(rows).unwrap();
    cs
}

fn names(lines: &Vec<LeaderRow>) -> Vec<(String, u128)> {
    lines.iter().map(|l| (l.username.clone(), l.coins)).collect()
}

fn pair(username: &str, coins: u128) -> (String, u128) {
    (username.to_string(), coins)
}

#[test]
fn ranks_by_falling_coins() {
    let cs = server(vec![
        row(1, "A", "a", "aa", 5),
        row(2, "B", "b", "bb", 9),
        row(3, "C", "c", "cc", 9),
        row(4, "D", "d", "dd", 1),
    ]);
    let top = cs.top(10);
    assert_eq!(names(&top), vec![pair("bb", 9), pair("cc", 9), pair("aa", 5), pair("dd", 1)]);
    assert_eq!(top[0].first_name, "B");
    assert_eq!(top[0].last_name, "b");
}

#[test]
fn equal_coins_keep_the_order_of_the_table() {
    let cs = server(vec![
        row(3, "C", "c", "cc", 9),
        row(1, "A", "a", "aa", 9),
        row(2, "B", "b", "bb", 9),
    ]);
    assert_eq!(names(&cs.top(10)), vec![pair("cc", 9), pair("aa", 9), pair("bb", 9)]);
}

#[test]
fn the_top_ten_of_three_members_has_three_lines() {
    let cs = server(vec![
        row(1, "A", "a", "aa", 0),
        row(2, "B", "b", "bb", 2),
        row(3, "C", "c", "cc", 1),
    ]);
    assert_eq!(cs.top(10).len(), 3);
    assert_eq!(cs.top(3).len(), 3);
    assert_eq!(names(&cs.top(2)), vec![pair("bb", 2), pair("cc", 1)]);
    assert_eq!(cs.top(0).len(), 0);
}

#[test]
fn an_empty_table_has_an_empty_ranking() {
    let cs = server(vec![]);
    assert_eq!(cs.top(10).len(), 0);
    assert_eq!(cs.get_top(), "*Рейтинг*\n");
}

#[test]
fn shows_ten_lines_at_most() {
    let mut rows = Vec::new();
    let mut i: u64 = 0;
    while i < 14 {
        rows.push(row(i + 1, "F", "L", &format!("user{}", i), i));
        i += 1;
    }
    let cs = server(rows);
    let top = cs.top(10);
    assert_eq!(top.len(), 10);
    assert_eq!(top[0].coins, 13);
    assert_eq!(top[9].coins, 4);
    assert_eq!(cs.get_top().lines().count(), 11);
}

#[test]
fn rows_with_the_same_three_names_share_a_line() {
    let rows = vec![
        row(1, "Ann", "Lee", "ann", 2),
        row(2, "Bob", "Ray", "bob", 4),
        row(3, "Ann", "Lee", "ann", 3),
        row(4, "Ann", "Poe", "ann", 1),
    ];
    let lines = group_rows(&rows);
    assert_eq!(names(&lines), vec![pair("ann", 5), pair("bob", 4), pair("ann", 1)]);
    assert_eq!(lines[0].last_name, "Lee");
    assert_eq!(lines[2].last_name, "Poe");
    let top = top_rows(&rows, 10);
    assert_eq!(names(&top), vec![pair("ann", 5), pair("bob", 4), pair("ann", 1)]);
}

#[test]
fn sums_do_not_overflow() {
    let rows = vec![
        row(1, "Ann", "Lee", "ann", u64::MAX),
        row(2, "Ann", "Lee", "ann", u64::MAX),
        row(3, "Ann", "Lee", "ann", 2),
    ];
    let top = top_rows(&rows, 10);
    assert_eq!(top.len(), 1);
    assert_eq!(top[0].coins, 36893488147419103232);
}

#[test]
fn ranking_puts_a_line_behind_its_equals() {
    let lines = vec![
        line("A", "a", "aa", 1),
        line("B", "b", "bb", 3),
        line("C", "c", "cc", 2),
        line("D", "d", "dd", 3),
        line("E", "e", "ee", 0),
        line("F", "f", "ff", 2),
    ];
    assert_eq!(
        names(&rank(&lines)),
        vec![pair("bb", 3), pair("dd", 3), pair("cc", 2), pair("ff", 2), pair("aa", 1), pair("ee", 0)]
    );
    assert_eq!(rank(&Vec::new()).len(), 0);
}

#[test]
fn writes_the_ranking_with_medals() {
    let cs = server(vec![
        row(1, "Ann", "Lee", "ann", 5),
        row(2, "Bob", "", "bob_b", 9),
        row(3, "Cid", "Ray", "cid", 7),
        row(4, "Dan", "Poe", "dan", 1),
        row(5, "Eve", "Fox", "eve", 0),
    ]);
    assert_eq!(
        cs.get_top(),
        "*Рейтинг*\n\
         🥇 9 \\- Bob  \\(@bob_b\\)\n\
         🥈 7 \\- Cid Ray \\(@cid\\)\n\
         🥉 5 \\- Ann Lee \\(@ann\\)\n       \
         1 \\- Dan Poe \\(@dan\\)\n       \
         0 \\- Eve Fox \\(@eve\\)\n"
    );
}

#[test]
fn writes_any_lines_as_a_ranking() {
    assert_eq!(write_ranking(&Vec::new()), "*Рейтинг*\n");
    assert_eq!(
        write_ranking(&vec![line("A", "a", "aa", 12)]),
        "*Рейтинг*\n🥇 12 \\- A a \\(@aa\\)\n"
    );
}

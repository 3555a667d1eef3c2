use group_motivation_bot::award::Award;
use group_motivation_bot::chat_server::{
    ChatServer, LedgerError, UserData, UserRow, UserTable,
};
use group_motivation_bot::handler::{handle, handle_on, IncomingMessage, Outgoing};

const GROUP: i64 = -1001;
const PRIVATE: i64 = 42;

fn server(cap: Option<i32>) -> ChatServer {
    ChatServer::new(
        Some("secret".to_string()),
        "Coin Bot".to_string(),
        "coin_bot".to_string(),
        "coin".to_string(),
        "thanks".to_string(),
        cap,
    )
}

fn user(id: u64, username: &str) -> UserData {
    UserData::get_new_user(
        id,
        if username.is_empty() { None } else { Some(username.to_string()) },
        "First".to_string(),
        Some("Last".to_string()),
    )
}

fn message(chat_id: i64, sender: UserData, text: &str) -> IncomingMessage {
    IncomingMessage { chat_id, sender: Some(sender), text: Some(text.to_string()) }
}

fn name(text: &str) -> String {
    text.to_string()
}

fn chat(chat_id: i64, text: &str) -> Outgoing {
    Outgoing::Chat { chat_id, text: text.to_string() }
}

fn note(user_id: u64, text: &str) -> Outgoing {
    Outgoing::Private { user_id, text: text.to_string() }
}

fn community(cap: Option<i32>) -> ChatServer {
    let mut cs = server(cap);
    let day = name("2024-05-01");
    cs.add_user_on(&user(1, "sam"), &day);
    cs.add_user_on(&user(2, "rita"), &day);
    cs.add_user_on(&user(3, "ron"), &day);
    cs.add_user_on(&user(4, "rex"), &day);
    cs
}

fn count_of(cs: &ChatServer, username: &str) -> i32 {
    cs.get_coins_per_day(&name(username)).unwrap().coins_per_day
}

fn date_of(cs: &ChatServer, username: &str) -> String {
    cs.get_coins_per_day(&name(username)).unwrap().current_date
}

#[test]
fn two_mentions_use_up_an_allowance_of_two() {
    let mut cs = community(Some(2));
    let day = name("2024-05-01");
    let out = handle_on(&message(GROUP, user(1, "sam"), "thanks @rita @ron"), &mut cs, &day);
    assert_eq!(out, Ok(vec![chat(GROUP, "\n@rita получил coin\n@ron получил coin")]));
    assert_eq!(cs.get_balance(&name("rita")), 1);
    assert_eq!(cs.get_balance(&name("ron")), 1);
    assert_eq!(count_of(&cs, "sam"), 2);

    let out = handle_on(&message(GROUP, user(1, "sam"), "thanks @rex"), &mut cs, &day);
    assert_eq!(
        out,
        Ok(vec![chat(GROUP, "\nВы привысили максимальное количество coin в день")])
    );
    assert_eq!(cs.get_balance(&name("rex")), 0);
    assert_eq!(count_of(&cs, "sam"), 2);
    assert_eq!(cs.get_balance(&name("rita")), 1);
}

#[test]
fn an_allowance_can_run_out_in_the_middle_of_a_message() {
    let mut cs = community(Some(2));
    let out = handle_on(
        &message(GROUP, user(1, "sam"), "thanks @rita @ron @rex"),
        &mut cs,
        &name("2024-05-01"),
    );
    assert_eq!(
        out,
        Ok(vec![chat(
            GROUP,
            "\n@rita получил coin\n@ron получил coin\nВы привысили максимальное количество coin в день"
        )])
    );
    assert_eq!(cs.get_balance(&name("rita")), 1);
    assert_eq!(cs.get_balance(&name("ron")), 1);
    assert_eq!(cs.get_balance(&name("rex")), 0);
    assert_eq!(count_of(&cs, "sam"), 2);
}

#[test]
fn an_unregistered_username_is_reported_and_gets_no_row() {
    let mut cs = community(Some(2));
    let out = handle_on(
        &message(GROUP, user(1, "sam"), "thanks @ghost"),
        &mut cs,
        &name("2024-05-01"),
    );
    assert_eq!(out, Ok(vec![chat(GROUP, "\nПользователь @ghost не зарегистрирован")]));
    assert!(!cs.user_exist(&name("ghost")));
    assert_eq!(cs.get_balance(&name("ghost")), 0);
    assert_eq!(cs.database.rows().len(), 4);
    assert_eq!(count_of(&cs, "sam"), 0);
}

#[test]
fn an_unregistered_username_does_not_stop_the_others() {
    let mut cs = community(Some(5));
    let out = handle_on(
        &message(GROUP, user(1, "sam"), "thanks @ghost and @rita"),
        &mut cs,
        &name("2024-05-01"),
    );
    assert_eq!(
        out,
        Ok(vec![chat(GROUP, "\nПользователь @ghost не зарегистрирован\n@rita получил coin")])
    );
    assert_eq!(cs.get_balance(&name("rita")), 1);
    assert_eq!(count_of(&cs, "sam"), 1);
}

#[test]
fn nobody_awards_themselves_or_the_bot() {
    let mut cs = community(Some(2));
    cs.add_user_on(&user(9, "coin_bot"), &name("2024-05-01"));
    let out = handle_on(
        &message(GROUP, user(1, "sam"), "thanks @sam @coin_bot"),
        &mut cs,
        &name("2024-05-01"),
    );
    assert_eq!(out, Ok(vec![]));
    assert_eq!(cs.get_balance(&name("sam")), 0);
    assert_eq!(cs.get_balance(&name("coin_bot")), 0);
    assert_eq!(count_of(&cs, "sam"), 0);
    assert_eq!(cs.award(&name("sam"), &name("sam"), &name("2024-05-01")), Ok(Award::Excluded));
    assert_eq!(
        cs.award(&name("sam"), &name("coin_bot"), &name("2024-05-01")),
        Ok(Award::Excluded)
    );
    assert_eq!(count_of(&cs, "sam"), 0);
}

#[test]
fn a_bot_without_a_row_is_reported_like_any_unknown_username() {
    let mut cs = community(Some(2));
    assert_eq!(
        cs.award(&name("sam"), &name("coin_bot"), &name("2024-05-01")),
        Ok(Award::NotRegistered)
    );
    assert_eq!(count_of(&cs, "sam"), 0);
    assert_eq!(cs.database.rows().len(), 4);
}

#[test]
fn a_new_day_starts_without_coins_given() {
    let mut cs = community(Some(1));
    assert_eq!(
        cs.award(&name("sam"), &name("rita"), &name("2024-05-01")),
        Ok(Award::Given { recipient_id: 2 })
    );
    assert_eq!(
        cs.award(&name("sam"), &name("ron"), &name("2024-05-01")),
        Ok(Award::QuotaExceeded)
    );
    assert_eq!(count_of(&cs, "sam"), 1);
    assert_eq!(
        cs.award(&name("sam"), &name("ron"), &name("2024-05-02")),
        Ok(Award::Given { recipient_id: 3 })
    );
    assert_eq!(count_of(&cs, "sam"), 1);
    assert_eq!(date_of(&cs, "sam"), "2024-05-02");
    assert_eq!(cs.get_balance(&name("ron")), 1);
    assert_eq!(
        cs.award(&name("sam"), &name("rex"), &name("2024-05-02")),
        Ok(Award::QuotaExceeded)
    );
    assert_eq!(cs.get_balance(&name("rex")), 0);
}

#[test]
fn a_new_day_starts_even_when_nothing_may_be_given() {
    let mut cs = community(Some(0));
    assert_eq!(
        cs.award(&name("sam"), &name("rita"), &name("2024-07-07")),
        Ok(Award::QuotaExceeded)
    );
    assert_eq!(date_of(&cs, "sam"), "2024-07-07");
    assert_eq!(count_of(&cs, "sam"), 0);
    assert_eq!(cs.get_balance(&name("rita")), 0);
}

#[test]
fn without_a_cap_every_mention_gives_a_coin() {
    let mut cs = community(None);
    let mut n: u64 = 0;
    while n < 40 {
        assert_eq!(
            cs.award(&name("sam"), &name("rita"), &name("2024-05-01")),
            Ok(Award::Given { recipient_id: 2 })
        );
        n += 1;
    }
    assert_eq!(cs.get_balance(&name("rita")), 40);
    assert_eq!(count_of(&cs, "sam"), 40);
}

#[test]
fn a_sender_without_a_row_cannot_award() {
    let mut cs = community(Some(2));
    assert_eq!(
        cs.award(&name("nobody"), &name("rita"), &name("2024-05-01")),
        Err(LedgerError::NoSuchUser)
    );
    assert_eq!(cs.get_balance(&name("rita")), 0);
}

#[test]
fn a_full_balance_ends_the_message_with_an_error() {
    let mut cs = server(Some(5));
    cs.database = UserTable::from_rows(vec![
        UserRow {
            id: 1,
            username: name("sam"),
            first_name: name("Sam"),
            last_name: String::new(),
            current_date: name("2024-05-01"),
            coins_per_day: 0,
            coins: 0,
        },
        UserRow {
            id: 2,
            username: name("rich"),
            first_name: name("Rich"),
            last_name: String::new(),
            current_date: name("2024-05-01"),
            coins_per_day: 0,
            coins: u64::MAX,
        },
        UserRow {
            id: 3,
            username: name("ron"),
            first_name: name("Ron"),
            last_name: String::new(),
            current_date: name("2024-05-01"),
            coins_per_day: 0,
            coins: 0,
        },
    ])
    .unwrap();
    let out = handle_on(
        &message(GROUP, user(1, "sam"), "thanks @ron @rich @ron"),
        &mut cs,
        &name("2024-05-01"),
    );
    assert_eq!(out, Err(LedgerError::CounterOverflow));
    assert_eq!(cs.get_balance(&name("ron")), 1);
    assert_eq!(cs.get_balance(&name("rich")), u64::MAX);
    assert_eq!(count_of(&cs, "sam"), 1);
}

#[test]
fn a_coin_given_in_a_private_chat_is_announced_to_the_receiver() {
    let mut cs = community(Some(5));
    let out = handle_on(
        &message(PRIVATE, user(1, "sam"), "thanks @rita @ghost @ron"),
        &mut cs,
        &name("2024-05-01"),
    );
    assert_eq!(
        out,
        Ok(vec![
            note(2, "Вам передали coin от @sam"),
            note(3, "Вам передали coin от @sam"),
            chat(
                PRIVATE,
                "\n@rita получил coin\nПользователь @ghost не зарегистрирован\n@ron получил coin"
            ),
        ])
    );
}

#[test]
fn the_answer_to_the_chat_has_its_underscores_escaped() {
    let mut cs = community(Some(5));
    cs.add_user_on(&user(5, "joe_1"), &name("2024-05-01"));
    let out = handle_on(
        &message(PRIVATE, user(1, "sam"), "thanks @joe_1 @no_one"),
        &mut cs,
        &name("2024-05-01"),
    );
    assert_eq!(
        out,
        Ok(vec![
            note(5, "Вам передали coin от @sam"),
            chat(
                PRIVATE,
                "\n@joe\\_1 получил coin\nПользователь @no\\_one не зарегистрирован"
            ),
        ])
    );
}

#[test]
fn the_keyword_counts_in_any_case() {
    let mut cs = community(Some(5));
    let out = handle_on(
        &message(GROUP, user(1, "sam"), "THANKS @rita"),
        &mut cs,
        &name("2024-05-01"),
    );
    assert_eq!(out, Ok(vec![chat(GROUP, "\n@rita получил coin")]));
    let out = handle_on(
        &message(GROUP, user(1, "sam"), "ManyThanks! @rita"),
        &mut cs,
        &name("2024-05-01"),
    );
    assert_eq!(out, Ok(vec![chat(GROUP, "\n@rita получил coin")]));
    assert_eq!(cs.get_balance(&name("rita")), 2);
    cs.key_word = name("Спасибо");
    let out = handle_on(
        &message(GROUP, user(1, "sam"), "сПАСИБО @rita"),
        &mut cs,
        &name("2024-05-01"),
    );
    assert_eq!(out, Ok(vec![chat(GROUP, "\n@rita получил coin")]));
    assert_eq!(cs.get_balance(&name("rita")), 3);
}

#[test]
fn a_text_without_the_keyword_is_passed_over() {
    let mut cs = community(Some(5));
    let out = handle_on(
        &message(GROUP, user(1, "sam"), "hello @rita"),
        &mut cs,
        &name("2024-05-01"),
    );
    assert_eq!(out, Ok(vec![]));
    assert_eq!(cs.get_balance(&name("rita")), 0);
    assert_eq!(count_of(&cs, "sam"), 0);
}

#[test]
fn a_keyword_without_mentions_gets_no_answer() {
    let mut cs = community(Some(5));
    let out = handle_on(
        &message(GROUP, user(1, "sam"), "thanks everybody"),
        &mut cs,
        &name("2024-05-01"),
    );
    assert_eq!(out, Ok(vec![]));
}

#[test]
fn a_message_without_text_is_passed_over() {
    let mut cs = community(Some(5));
    let m = IncomingMessage { chat_id: GROUP, sender: Some(user(1, "sam")), text: None };
    assert_eq!(handle_on(&m, &mut cs, &name("2024-05-01")), Ok(vec![]));
    assert_eq!(handle(&m, &mut cs), Ok(vec![]));
}

#[test]
fn an_unregistered_sender_is_told_to_register() {
    let mut cs = community(Some(5));
    let out = handle_on(
        &message(GROUP, user(77, "stranger"), "thanks @rita"),
        &mut cs,
        &name("2024-05-01"),
    );
    assert_eq!(
        out,
        Ok(vec![chat(
            GROUP,
            "*Вы НЕ зарегистрированны*\\.\nРегистрация возможна через личное сообщение боту @coin\\_bot"
        )])
    );
    assert_eq!(cs.get_balance(&name("rita")), 0);
}

#[test]
fn mentions_are_told_apart_by_any_space() {
    let mut cs = community(Some(5));
    let out = handle_on(
        &message(GROUP, user(1, "sam"), "thanks\n@rita\t@ron"),
        &mut cs,
        &name("2024-05-01"),
    );
    assert_eq!(out, Ok(vec![chat(GROUP, "\n@rita получил coin\n@ron получил coin")]));
}

#[test]
fn every_at_sign_of_a_word_is_taken_out() {
    let mut cs = community(Some(5));
    let out = handle_on(
        &message(GROUP, user(1, "sam"), "thanks r@it@a @rita! @"),
        &mut cs,
        &name("2024-05-01"),
    );
    assert_eq!(
        out,
        Ok(vec![chat(
            GROUP,
            "\n@rita получил coin\nПользователь @rita! не зарегистрирован\nПользователь @ не зарегистрирован"
        )])
    );
    assert_eq!(cs.get_balance(&name("rita")), 1);
}

#[test]
fn start_lists_the_commands() {
    let mut cs = community(Some(5));
    let out = handle_on(
        &message(GROUP, user(77, "stranger"), "/start"),
        &mut cs,
        &name("2024-05-01"),
    );
    assert_eq!(
        out,
        Ok(vec![chat(
            GROUP,
            "*Описание команд*\n\n/start — Описание\n/reg — Активация бота\\.\n`/reg \\<Ключ активации\\>`\n/top — Топ"
        )])
    );
}

#[test]
fn registration_needs_a_private_chat() {
    let mut cs = server(None);
    let out = handle_on(
        &message(GROUP, user(1, "sam"), "/reg secret"),
        &mut cs,
        &name("2024-05-01"),
    );
    assert_eq!(
        out,
        Ok(vec![chat(GROUP, "Регистрация возможна через личное сообщение боту @coin\\_bot")])
    );
    assert!(!cs.user_exist(&name("sam")));
}

#[test]
fn registration_needs_the_key() {
    let mut cs = server(None);
    let out = handle_on(
        &message(PRIVATE, user(1, "sam"), "/reg wrong"),
        &mut cs,
        &name("2024-05-01"),
    );
    assert_eq!(
        out,
        Ok(vec![chat(PRIVATE, "*Регистрация НЕ выполнена*\\.\nКлюч задан неверно")])
    );
    let out = handle_on(&message(PRIVATE, user(1, "sam"), "/reg"), &mut cs, &name("2024-05-01"));
    assert_eq!(
        out,
        Ok(vec![chat(PRIVATE, "*Регистрация НЕ выполнена*\\.\nКлюч задан неверно")])
    );
    assert!(!cs.user_exist(&name("sam")));
}

#[test]
fn registration_needs_a_username() {
    let mut cs = server(None);
    let out = handle_on(
        &message(PRIVATE, user(1, ""), "/reg secret"),
        &mut cs,
        &name("2024-05-01"),
    );
    assert_eq!(
        out,
        Ok(vec![chat(
            PRIVATE,
            "*Регистрация НЕ выполнена*\\.\nНеобходимо установить в профиле Имя пользователя\\(Username\\)\\.\nПри смене имени пользователя необходимо снова запустить команду регистрации\\."
        )])
    );
    assert!(cs.database.rows().is_empty());
}

#[test]
fn registration_adds_the_sender_once() {
    let mut cs = server(None);
    let out = handle_on(
        &message(PRIVATE, user(1, "sam"), "/reg secret"),
        &mut cs,
        &name("2024-05-01"),
    );
    assert_eq!(out, Ok(vec![chat(PRIVATE, "Регистрация прошла успешно")]));
    assert!(cs.user_exist(&name("sam")));
    assert_eq!(cs.get_balance(&name("sam")), 0);
    assert_eq!(date_of(&cs, "sam"), "2024-05-01");
    cs.increase_coin_count(&name("sam")).unwrap();
    let out = handle_on(
        &message(PRIVATE, user(1, "sam"), "/reg secret"),
        &mut cs,
        &name("2024-05-02"),
    );
    assert_eq!(out, Ok(vec![chat(PRIVATE, "Вы уже зарегистрированны")]));
    assert_eq!(cs.database.rows().len(), 1);
    assert_eq!(cs.get_balance(&name("sam")), 1);
    assert_eq!(date_of(&cs, "sam"), "2024-05-01");
}

#[test]
fn registration_under_a_new_username_keeps_the_coins() {
    let mut cs = server(None);
    handle_on(&message(PRIVATE, user(1, "sam"), "/reg secret"), &mut cs, &name("2024-05-01"))
        .unwrap();
    cs.increase_coin_count(&name("sam")).unwrap();
    let out = handle_on(
        &message(PRIVATE, user(1, "sammy"), "/reg secret"),
        &mut cs,
        &name("2024-05-02"),
    );
    assert_eq!(out, Ok(vec![chat(PRIVATE, "Вы уже зарегистрированны")]));
    assert_eq!(cs.database.rows().len(), 1);
    assert!(!cs.user_exist(&name("sam")));
    assert_eq!(cs.get_balance(&name("sammy")), 1);
    assert_eq!(date_of(&cs, "sammy"), "2024-05-01");
}

#[test]
fn registration_again_refreshes_the_names_and_keeps_the_rest() {
    let mut cs = server(None);
    cs.database = UserTable::from_rows(vec![
        UserRow {
            id: 1,
            username: name("sam"),
            first_name: name("Old"),
            last_name: name("Name"),
            current_date: name("2024-04-30"),
            coins_per_day: 2,
            coins: 7,
        },
        UserRow {
            id: 2,
            username: name("rita"),
            first_name: name("Rita"),
            last_name: String::new(),
            current_date: name("2024-04-30"),
            coins_per_day: 0,
            coins: 3,
        },
    ])
    .unwrap();
    let sender = UserData::get_new_user(
        1,
        Some(name("sam")),
        name("Samuel"),
        Some(name("Newman")),
    );
    let out = handle_on(&message(PRIVATE, sender, "/reg secret"), &mut cs, &name("2024-05-02"));
    assert_eq!(out, Ok(vec![chat(PRIVATE, "Вы уже зарегистрированны")]));
    let rows = cs.database.rows();
    assert_eq!(rows.len(), 2);
    assert_eq!(rows[0].id, 1);
    assert_eq!(rows[0].username, "sam");
    assert_eq!(rows[0].first_name, "Samuel");
    assert_eq!(rows[0].last_name, "Newman");
    assert_eq!(rows[0].coins, 7);
    assert_eq!(rows[0].coins_per_day, 2);
    assert_eq!(rows[0].current_date, "2024-04-30");
    assert_eq!(rows[1].first_name, "Rita");
    assert_eq!(rows[1].coins, 3);
}

#[test]
fn a_username_of_another_member_is_not_registered_again() {
    let mut cs = community(None);
    let out = handle_on(
        &message(PRIVATE, user(50, "rita"), "/reg secret"),
        &mut cs,
        &name("2024-05-02"),
    );
    assert_eq!(out, Ok(vec![chat(PRIVATE, "Вы уже зарегистрированны")]));
    assert_eq!(cs.database.rows().len(), 4);
    assert!(!cs.id_exist(50));
    assert_eq!(cs.get_id_by_username(&name("rita")), Ok(2));
}

#[test]
fn without_a_key_any_registration_counts() {
    let mut cs = ChatServer::new(
        None,
        "Coin Bot".to_string(),
        "coin_bot".to_string(),
        "coin".to_string(),
        "thanks".to_string(),
        None,
    );
    let out = handle_on(&message(PRIVATE, user(1, "sam"), "/reg"), &mut cs, &name("2024-05-01"));
    assert_eq!(out, Ok(vec![chat(PRIVATE, "Регистрация прошла успешно")]));
    let out = handle_on(
        &message(PRIVATE, user(2, "rita"), "/reg whatever key"),
        &mut cs,
        &name("2024-05-01"),
    );
    assert_eq!(out, Ok(vec![chat(PRIVATE, "Регистрация прошла успешно")]));
    assert!(cs.user_exist(&name("sam")));
    assert!(cs.user_exist(&name("rita")));
    let out = handle_on(&message(GROUP, user(3, "ron"), "/reg"), &mut cs, &name("2024-05-01"));
    assert_eq!(
        out,
        Ok(vec![chat(GROUP, "Регистрация возможна через личное сообщение боту @coin\\_bot")])
    );
    assert!(!cs.user_exist(&name("ron")));
}

#[test]
fn an_empty_key_is_a_key_like_any_other() {
    let mut cs = server(None);
    cs.registration_key = Some(String::new());
    let out = handle_on(&message(PRIVATE, user(1, "sam"), "/reg x"), &mut cs, &name("2024-05-01"));
    assert_eq!(
        out,
        Ok(vec![chat(PRIVATE, "*Регистрация НЕ выполнена*\\.\nКлюч задан неверно")])
    );
    let out = handle_on(&message(PRIVATE, user(1, "sam"), "/reg"), &mut cs, &name("2024-05-01"));
    assert_eq!(out, Ok(vec![chat(PRIVATE, "Регистрация прошла успешно")]));
}

fn unsigned(chat_id: i64, text: &str) -> IncomingMessage {
    IncomingMessage { chat_id, sender: None, text: Some(text.to_string()) }
}

#[test]
fn a_message_without_a_sender_is_answered_where_no_sender_is_needed() {
    let mut cs = community(Some(5));
    let day = name("2024-05-01");
    assert_eq!(handle_on(&unsigned(GROUP, "hello @rita"), &mut cs, &day), Ok(vec![]));
    assert_eq!(
        handle_on(&unsigned(GROUP, "/reg secret"), &mut cs, &day),
        Ok(vec![chat(GROUP, "Регистрация возможна через личное сообщение боту @coin\\_bot")])
    );
    assert_eq!(
        handle_on(&unsigned(PRIVATE, "/reg wrong"), &mut cs, &day),
        Ok(vec![chat(PRIVATE, "*Регистрация НЕ выполнена*\\.\nКлюч задан неверно")])
    );
    let out = handle_on(&unsigned(GROUP, "/start"), &mut cs, &day).unwrap();
    assert_eq!(out.len(), 1);
    let m = IncomingMessage { chat_id: GROUP, sender: None, text: None };
    assert_eq!(handle_on(&m, &mut cs, &day), Ok(vec![]));
}

#[test]
fn a_message_without_a_sender_fails_where_a_sender_is_needed() {
    let mut cs = community(Some(5));
    let day = name("2024-05-01");
    assert_eq!(
        handle_on(&unsigned(PRIVATE, "/reg secret"), &mut cs, &day),
        Err(LedgerError::NoSender)
    );
    assert_eq!(handle_on(&unsigned(GROUP, "/top"), &mut cs, &day), Err(LedgerError::NoSender));
    assert_eq!(
        handle_on(&unsigned(GROUP, "thanks @rita"), &mut cs, &day),
        Err(LedgerError::NoSender)
    );
    assert_eq!(cs.database.rows().len(), 4);
    assert_eq!(cs.get_balance(&name("rita")), 0);
}

#[test]
fn a_new_day_counts_from_zero_whatever_the_count_was() {
    let mut cs = server(Some(1));
    cs.database = UserTable::from_rows(vec![
        UserRow {
            id: 1,
            username: name("sam"),
            first_name: name("Sam"),
            last_name: String::new(),
            current_date: name("2024-04-30"),
            coins_per_day: 99,
            coins: 0,
        },
        UserRow {
            id: 2,
            username: name("rita"),
            first_name: name("Rita"),
            last_name: String::new(),
            current_date: name("2024-04-30"),
            coins_per_day: 0,
            coins: 4,
        },
    ])
    .unwrap();
    let out = handle_on(&message(GROUP, user(1, "sam"), "thanks @rita"), &mut cs, &name("2024-05-01"));
    assert_eq!(out, Ok(vec![chat(GROUP, "\n@rita получил coin")]));
    assert_eq!(cs.get_balance(&name("rita")), 5);
    assert_eq!(count_of(&cs, "sam"), 1);
    assert_eq!(date_of(&cs, "sam"), "2024-05-01");
}

#[test]
fn the_ranking_is_for_registered_senders() {
    let mut cs = community(Some(5));
    cs.increase_coin_count(&name("ron")).unwrap();
    let out = handle_on(&message(GROUP, user(1, "sam"), "/top"), &mut cs, &name("2024-05-01"));
    assert_eq!(
        out,
        Ok(vec![chat(
            GROUP,
            "*Рейтинг*\n🥇 1 \\- First Last \\(@ron\\)\n🥈 0 \\- First Last \\(@sam\\)\n🥉 0 \\- First Last \\(@rita\\)\n       0 \\- First Last \\(@rex\\)\n"
        )])
    );
    let out = handle_on(
        &message(GROUP, user(77, "stranger"), "/top@coin_bot"),
        &mut cs,
        &name("2024-05-01"),
    );
    assert_eq!(
        out,
        Ok(vec![chat(
            GROUP,
            "*Вы НЕ зарегистрированны*\\.\nРегистрация возможна через личное сообщение боту @coin\\_bot"
        )])
    );
}

#[test]
fn a_command_for_another_bot_is_read_as_free_text() {
    let mut cs = community(Some(5));
    let out = handle_on(
        &message(GROUP, user(1, "sam"), "/top@other_bot thanks @rita"),
        &mut cs,
        &name("2024-05-01"),
    );
    assert_eq!(
        out,
        Ok(vec![chat(
            GROUP,
            "\nПользователь @/topother\\_bot не зарегистрирован\n@rita получил coin"
        )])
    );
}

#[test]
fn a_message_that_arrives_now_counts_for_today() {
    let mut cs = community(Some(1));
    let out = handle(&message(GROUP, user(1, "sam"), "thanks @rita @ron"), &mut cs);
    assert_eq!(
        out,
        Ok(vec![chat(
            GROUP,
            "\n@rita получил coin\nВы привысили максимальное количество coin в день"
        )])
    );
    assert_eq!(count_of(&cs, "sam"), 1);
    assert_ne!(date_of(&cs, "sam"), "2024-05-01");
    assert_eq!(date_of(&cs, "sam").len(), 10);
}

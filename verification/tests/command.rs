use group_motivation_bot::command::Command;

#[test]
fn reads_the_three_commands() {
    assert_eq!(Command::parse("/start", "coin_bot"), Some(Command::Start));
    assert_eq!(Command::parse("/top", "coin_bot"), Some(Command::Top));
    assert_eq!(
        Command::parse("/reg secret", "coin_bot"),
        Some(Command::Reg("secret".to_string()))
    );
}

#[test]
fn the_key_is_all_that_follows_the_first_space() {
    assert_eq!(Command::parse("/reg", "coin_bot"), Some(Command::Reg(String::new())));
    assert_eq!(Command::parse("/reg ", "coin_bot"), Some(Command::Reg(String::new())));
    assert_eq!(
        Command::parse("/reg  two words ", "coin_bot"),
        Some(Command::Reg(" two words ".to_string()))
    );
    assert_eq!(
        Command::parse("/reg ключ", "coin_bot"),
        Some(Command::Reg("ключ".to_string()))
    );
}

#[test]
fn commands_without_a_key_pass_over_what_follows() {
    assert_eq!(Command::parse("/start now please", "coin_bot"), Some(Command::Start));
    assert_eq!(Command::parse("/top 5", "coin_bot"), Some(Command::Top));
}

#[test]
fn a_command_may_name_the_bot() {
    assert_eq!(Command::parse("/top@coin_bot", "coin_bot"), Some(Command::Top));
    assert_eq!(Command::parse("/top@Coin_Bot", "coin_bot"), Some(Command::Top));
    assert_eq!(Command::parse("/top@coin_bot", "COIN_BOT"), Some(Command::Top));
    assert_eq!(
        Command::parse("/reg@coin_bot secret", "coin_bot"),
        Some(Command::Reg("secret".to_string()))
    );
    assert_eq!(Command::parse("/start@coin_bot@other", "coin_bot"), Some(Command::Start));
}

#[test]
fn a_command_for_another_bot_is_none() {
    assert_eq!(Command::parse("/top@other_bot", "coin_bot"), None);
    assert_eq!(Command::parse("/top@", "coin_bot"), None);
    assert_eq!(Command::parse("/top@coin_bot2", "coin_bot"), None);
    assert_eq!(Command::parse("/frob@other_bot", "coin_bot"), None);
}

#[test]
fn other_texts_are_no_commands() {
    assert_eq!(Command::parse("", "coin_bot"), None);
    assert_eq!(Command::parse("hello", "coin_bot"), None);
    assert_eq!(Command::parse("/frob", "coin_bot"), None);
    assert_eq!(Command::parse("/Start", "coin_bot"), None);
    assert_eq!(Command::parse("/TOP", "coin_bot"), None);
    assert_eq!(Command::parse(" /top", "coin_bot"), None);
    assert_eq!(Command::parse("top", "coin_bot"), None);
    assert_eq!(Command::parse("/topmost", "coin_bot"), None);
    assert_eq!(Command::parse("/top\n", "coin_bot"), None);
}

#[test]
fn an_empty_bot_name_matches_an_empty_address() {
    assert_eq!(Command::parse("/top@", ""), Some(Command::Top));
    assert_eq!(Command::parse("/top@x", ""), None);
}

#[test]
fn lists_the_commands() {
    assert_eq!(
        Command::descriptions(),
        "*Описание команд*\n\n/start — Описание\n/reg — Активация бота\\.\n`/reg \\<Ключ активации\\>`\n/top — Топ"
    );
}

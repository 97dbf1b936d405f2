use tchux::color::get_color;
use tchux::lines::{
    failed_login_text, farewell_message, format_broadcast, get_time, stamped_line, welcome_message,
};

#[test]
fn server_gets_the_red_marker() {
    assert_eq!(get_color("server"), "+\x1B[31m");
}

#[test]
fn user_colors_follow_the_byte_sum() {
    // 97+108+105+99+101 = 510, 510 % 5 = 0
    assert_eq!(get_color("alice"), "\x1B[32m");
    // 98+111+98 = 307, 307 % 5 = 2
    assert_eq!(get_color("bob"), "\x1B[34m");
    // 0xC3 + 0xA9 = 364, 364 % 5 = 4
    assert_eq!(get_color("é"), "\x1B[36m");
    assert_eq!(get_color(""), "\x1B[32m");
    // "c" = 99 -> 4, "b" = 98 -> 3, "e" = 101 -> 1
    assert_eq!(get_color("c"), "\x1B[36m");
    assert_eq!(get_color("b"), "\x1B[35m");
    assert_eq!(get_color("e"), "\x1B[33m");
    // "Server" is not "server"
    assert_ne!(get_color("Server"), "+\x1B[31m");
}

#[test]
fn color_ignores_the_order_of_parts() {
    assert_eq!(get_color("alicebob"), get_color("bobalice"));
    assert_eq!(get_color("ab"), get_color("ba"));
}

#[test]
fn welcome_and_farewell_lines() {
    assert_eq!(welcome_message("alice"), "\x1B[32malice\x1B[0m just joined the chat :)");
    assert_eq!(farewell_message("bob"), "\x1B[34mbob\x1B[0m left :(");
}

#[test]
fn broadcast_line_format() {
    assert_eq!(
        format_broadcast("bob", "12:34:56", "hi"),
        "\x1B[34m\u{276E}12:34:56\u{276F} bob\u{276F}\x1B[0m: hi"
    );
    assert_eq!(
        format_broadcast("server", "01:02:03", "x"),
        "+\x1B[31m\u{276E}01:02:03\u{276F} server\u{276F}\x1B[0m: x"
    );
}

#[test]
fn failed_login_warning_text() {
    assert_eq!(failed_login_text(), "WARNING: Attempted login with invalid passphrase!");
}

fn is_clock(t: &str) -> bool {
    let cs: Vec<char> = t.chars().collect();
    cs.len() == 8
        && cs[2] == ':'
        && cs[5] == ':'
        && [0, 1, 3, 4, 6, 7].iter().all(|&i| cs[i].is_ascii_digit())
}

#[test]
fn time_reads_as_a_clock() {
    let t = get_time();
    assert!(is_clock(&t), "{t}");
}

#[test]
fn stamped_line_carries_a_clock_time() {
    let line = stamped_line("bob", "hi");
    let head = "\x1B[34m\u{276E}";
    let tail = "\u{276F} bob\u{276F}\x1B[0m: hi";
    assert!(line.starts_with(head));
    assert!(line.ends_with(tail));
    let time = &line[head.len()..line.len() - tail.len()];
    assert!(is_clock(time), "{time}");
}

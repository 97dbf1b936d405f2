use tchux::emoji::emoji_preprocessor;
use tchux::line_client::process;

#[test]
fn every_emoji_name_is_replaced() {
    let cases = [
        (":happy:", "😊"),
        (":sad:", "😢"),
        (":angry:", "😠"),
        (":laughing:", "😂"),
        (":heart:", "❤️"),
        (":heartbroken:", "💔"),
        (":thinking:", "🤔"),
        (":sleeping:", "😴"),
        (":winking:", "😉"),
        (":surprised:", "😲"),
        (":skull:", "💀"),
        (":sparkle:", "✨"),
    ];
    for (name, emoji) in cases {
        assert_eq!(emoji_preprocessor(name.to_string()), emoji);
    }
}

#[test]
fn emojis_inside_a_sentence() {
    assert_eq!(emoji_preprocessor("i am :happy: today".to_string()), "i am 😊 today");
    assert_eq!(emoji_preprocessor(":sad: :skull:".to_string()), "😢 💀");
}

#[test]
fn plain_line_is_only_trimmed() {
    assert_eq!(emoji_preprocessor("  hello world \n".to_string()), "hello world");
    assert_eq!(emoji_preprocessor("no emojis here".to_string()), "no emojis here");
}

#[test]
fn words_must_match_whole() {
    assert_eq!(emoji_preprocessor(":happy:!".to_string()), ":happy:!");
    assert_eq!(emoji_preprocessor(":Happy:".to_string()), ":Happy:");
    assert_eq!(emoji_preprocessor("x:happy:".to_string()), "x:happy:");
}

#[test]
fn inner_spaces_are_kept() {
    assert_eq!(emoji_preprocessor("a  b".to_string()), "a  b");
    assert_eq!(emoji_preprocessor("a  :sad:".to_string()), "a  😢");
}

#[test]
fn other_white_space_splits_no_words() {
    assert_eq!(emoji_preprocessor("\t:happy:".to_string()), ":happy:");
    assert_eq!(emoji_preprocessor(":happy:\n".to_string()), ":happy:");
}

#[test]
fn empty_and_blank_lines() {
    assert_eq!(emoji_preprocessor(String::new()), "");
    assert_eq!(emoji_preprocessor("   ".to_string()), "");
    assert_eq!(emoji_preprocessor("\u{3000}x\u{2003}".to_string()), "x");
}

#[test]
fn process_matches_emoji_preprocessor() {
    for line in ["hey :heart:", "  ", ":sparkle: :winking: x", "plain"] {
        assert_eq!(process(line.to_string()), emoji_preprocessor(line.to_string()));
    }
    assert_eq!(process("love :heart:".to_string()), "love ❤️");
}

#[test]
fn emojis_twice_is_emojis_once() {
    for line in ["  hi :happy: there  ", ":heart: :sad:", "::happy:: :x:", "", "   ", "a  b"] {
        let once = emoji_preprocessor(line.to_string());
        assert_eq!(emoji_preprocessor(once.clone()), once);
    }
    // A tab is white space other than the space: it is trimmed away and
    // leaves a name that the second pass turns into its emoji.
    assert_eq!(emoji_preprocessor("\t:happy:".to_string()), ":happy:");
    assert_eq!(emoji_preprocessor(":happy:".to_string()), "😊");
}

#[test]
fn process_works_word_by_word() {
    let pairs = [("hi :happy:", ":sad: there"), ("a", "b"), (":heart:", ":heart:"), ("x  y", "z")];
    for (a, b) in pairs {
        assert_eq!(
            process(format!("{a} {b}")),
            format!("{} {}", process(a.to_string()), process(b.to_string()))
        );
    }
    assert_eq!(process("hi :happy: :sad: there".to_string()), "hi 😊 😢 there");
}

use push_relay::event::Commit;
use push_relay::event::PushEvent;
use push_relay::event::Pusher;
use push_relay::event::Repository;
use push_relay::event::Sender;
use push_relay::format::escape;
use push_relay::format::format_commit_line;
use push_relay::format::format_link;
use push_relay::format::format_push_message;
use push_relay::format::reserved_char;

fn sample_event(commits: Vec<Commit>) -> PushEvent {
    PushEvent {
        pusher: Pusher { name: String::from("alice") },
        commits,
        repository: Repository {
            full_name: String::from("acme/widgets"),
            html_url: String::from("https://git.example/acme/widgets"),
        },
        sender: Sender {
            login: String::from("alice"),
            html_url: String::from("https://git.example/alice"),
        },
    }
}

#[test]
fn escape_empty() {
    assert_eq!(escape(""), "");
}

#[test]
fn escape_plain_text_unchanged() {
    assert_eq!(escape("Fix bug"), "Fix bug");
    assert_eq!(escape("https://c/1?a&b"), "https://c/1?a&b");
}

#[test]
fn escape_reserved_characters() {
    assert_eq!(escape("a_b"), "a\\_b");
    assert_eq!(escape("*bold*"), "\\*bold\\*");
    assert_eq!(escape("[x](y)"), "\\[x\\]\\(y\\)");
    assert_eq!(escape("a\\b"), "a\\\\b");
    assert_eq!(escape("git.example"), "git\\.example");
    assert_eq!(
        escape("_*[]()~`>#+-=|{}.!"),
        "\\_\\*\\[\\]\\(\\)\\~\\`\\>\\#\\+\\-\\=\\|\\{\\}\\.\\!"
    );
}

#[test]
fn escaped_reserved_always_after_backslash() {
    let inputs = ["release v1.0 (final!)", "a_b*c~d`e>f#g+h-i=j|k{l}m", "back\\slash", "plain"];
    for input in inputs {
        let out = escape(input);
        let chars: Vec<char> = out.chars().collect();
        for i in 0..chars.len() {
            if reserved_char(chars[i]) && chars[i] != '\\' {
                assert!(i > 0);
                assert_eq!(chars[i - 1], '\\');
            }
        }
    }
}

#[test]
fn link_plain() {
    assert_eq!(
        format_link("alice", "https://git.example/alice"),
        "[alice](https://git\\.example/alice)"
    );
}

#[test]
fn link_escapes_text_and_url() {
    assert_eq!(format_link("a_b", "u(1)"), "[a\\_b](u\\(1\\))");
}

#[test]
fn commit_line_has_bullet_and_link() {
    let c = Commit {
        message: String::from("Fix bug"),
        url: String::from("https://git.example/acme/widgets/commit/1"),
    };
    assert_eq!(
        format_commit_line(&c),
        "\u{2022} [Fix bug](https://git\\.example/acme/widgets/commit/1)"
    );
}

#[test]
fn push_message_single_commit() {
    let commits = vec![Commit {
        message: String::from("Fix bug"),
        url: String::from("https://git.example/acme/widgets/commit/1"),
    }];
    let event = sample_event(commits);
    let expected = "New push to [acme/widgets](https://git\\.example/acme/widgets) \
                    by [alice](https://git\\.example/alice):\n\n\
                    \u{2022} [Fix bug](https://git\\.example/acme/widgets/commit/1)";
    assert_eq!(format_push_message(&event), expected);
}

#[test]
fn push_message_bullet_lines_in_order() {
    let commits = vec![
        Commit { message: String::from("first"), url: String::from("https://c/1") },
        Commit { message: String::from("second"), url: String::from("https://c/2") },
        Commit { message: String::from("third"), url: String::from("https://c/3") },
    ];
    let event = sample_event(commits);
    let message = format_push_message(&event);
    let body = message.split_once(":\n\n").expect("header separator").1;
    let lines: Vec<&str> = body.split('\n').collect();
    assert_eq!(lines.len(), 3);
    assert_eq!(lines[0], "\u{2022} [first](https://c/1)");
    assert_eq!(lines[1], "\u{2022} [second](https://c/2)");
    assert_eq!(lines[2], "\u{2022} [third](https://c/3)");
}

#[test]
fn push_message_no_commits() {
    let event = sample_event(Vec::new());
    assert_eq!(
        format_push_message(&event),
        "New push to [acme/widgets](https://git\\.example/acme/widgets) \
         by [alice](https://git\\.example/alice):\n\n"
    );
}

#[test]
fn push_message_escapes_reserved_in_commit() {
    let commits = vec![Commit {
        message: String::from("bump to v2 (breaking!)"),
        url: String::from("https://c/1?a=b"),
    }];
    let event = sample_event(commits);
    let message = format_push_message(&event);
    assert!(message.ends_with("\u{2022} [bump to v2 \\(breaking\\!\\)](https://c/1?a\\=b)"));
}

use igarchive::browse::{BrowseReplyOf, Browser};
use igarchive::console::{Console, ConsoleReplyOf, IdComplaint};
use igarchive::listing::{name_changes, overview, thread_info};
use igarchive::model::{Like, Message, Thread};
use igarchive::render::{describe_likes, describe_media, describe_message, Segment, Style};
use igarchive::stats::{leaderboard, messages_over_time, Interval};
use igarchive::text::{
    contains_str, decimal_string, parse_usize, show_time, split_words, byte_len_below,
};
use igarchive::timeline::{gap_clock_text, gap_stats, thread_gaps};

fn message(sender: &str, created_at: &str) -> Message {
    Message {
        sender: sender.to_string(),
        created_at: created_at.to_string(),
        text: None,
        media: None,
        media_url: None,
        media_share_url: None,
        media_owner: None,
        action: None,
        video_call_action: None,
        live_video_invite: None,
        heart: None,
        likes: None,
    }
}

fn text_message(sender: &str, created_at: &str, text: &str) -> Message {
    let mut m = message(sender, created_at);
    m.text = Some(text.to_string());
    m
}

fn flat(line: &[Segment]) -> String {
    line.iter().map(|s| s.text.clone()).collect::<Vec<_>>().join("")
}

fn thread(participants: &[&str], conversation: Vec<Message>) -> Thread {
    Thread {
        participants: participants.iter().map(|p| p.to_string()).collect(),
        conversation,
    }
}

/// Five messages, newest first: ids 0..4 from the oldest.
fn sample_thread() -> Thread {
    thread(
        &["me", "alice", "bob"],
        vec![
            text_message("bob", "2021-03-01T10:00:00.000000+00:00", "See you TOMORROW"),
            text_message("alice", "2021-02-15T09:30:00.000000+00:00", "tomorrow then"),
            text_message("me", "2021-02-15T09:00:00.000000+00:00", "ok"),
            text_message("alice", "2021-01-10T08:00:00.000000+00:00", "hello there"),
            text_message("bob", "2020-12-31T23:59:59.500000+00:00", "hi all"),
        ],
    )
}

#[test]
fn text_message_line() {
    let mut m = text_message("alice", "2020-01-02T03:04:05.000000+00:00", "hi");
    m.likes = Some(vec![
        Like { username: "bob".to_string(), date: "x".to_string() },
        Like { username: "eve".to_string(), date: "y".to_string() },
    ]);
    let line = describe_message(&m);
    assert_eq!(
        flat(&line),
        "  user alice on 2020-01-02T03:04:05.000000 wrote: [<3 x2]\n  hi"
    );
    assert_eq!(line[1].style, Style::Name);
    assert_eq!(line[3].style, Style::Time);
    assert_eq!(line[5].style, Style::Love);
}

#[test]
fn message_kinds() {
    let base = "2020-01-02T03:04:05.000000+00:00";
    let mut m = message("a", base);
    m.media = Some("u".to_string());
    assert_eq!(flat(&describe_message(&m)), "  user a on 2020-01-02T03:04:05.000000 sent media. ");
    let mut m = message("a", base);
    m.media_url = Some("u".to_string());
    assert_eq!(
        flat(&describe_message(&m)),
        "  user a on 2020-01-02T03:04:05.000000 sent media_url media.... "
    );
    let mut m = message("a", base);
    m.media_owner = Some("o".to_string());
    assert_eq!(
        flat(&describe_message(&m)),
        "  user a on 2020-01-02T03:04:05.000000 sent media from o. "
    );
    let mut m = message("a", base);
    m.action = Some("liked a message".to_string());
    assert_eq!(
        flat(&describe_message(&m)),
        "  user a on 2020-01-02T03:04:05.000000 took action 'liked a message'"
    );
    let mut m = message("a", base);
    m.heart = Some("x".to_string());
    let line = describe_message(&m);
    assert_eq!(flat(&line), "  user a on 2020-01-02T03:04:05.000000 sent <3");
    assert_eq!(line[line.len() - 1].style, Style::Love);
    let mut m = message("a", base);
    m.video_call_action = Some("started".to_string());
    assert_eq!(
        flat(&describe_message(&m)),
        "  user a on 2020-01-02T03:04:05.000000 took vidcall action 'started'"
    );
    let mut m = message("a", base);
    m.live_video_invite = Some("x".to_string());
    assert_eq!(
        flat(&describe_message(&m)),
        "  user a on 2020-01-02T03:04:05.000000 sent a live video invite"
    );
    let m = message("a", "yesterday");
    assert_eq!(flat(&describe_message(&m)), "  user a on err did ???");
}

#[test]
fn timestamps_lose_their_offset() {
    assert_eq!(show_time("2020-01-01T00:00:00+00:00"), "2020-01-01T00:00:00");
    assert_eq!(show_time("+00:00"), "");
    assert_eq!(show_time("2020-01-01T00:00:00+01:00"), "err");
}

#[test]
fn likes_listing() {
    let m = message("a", "t");
    let lines = describe_likes(&m);
    assert_eq!(lines.len(), 1);
    assert_eq!(flat(&lines[0]), "Has no likes.");
    let mut m = message("a", "t");
    m.likes = Some(vec![Like {
        username: "bob".to_string(),
        date: "2020-05-05T01:02:03+00:00".to_string(),
    }]);
    let lines = describe_likes(&m);
    assert_eq!(lines.len(), 2);
    assert_eq!(flat(&lines[0]), "Has 1 likes:");
    assert_eq!(lines[0][1].style, Style::Love);
    assert_eq!(flat(&lines[1]), "... bob on 2020-05-05T01:02:03");
}

#[test]
fn media_info() {
    let mut m = message("a", "t");
    assert!(describe_media(&m).is_none());
    m.media_url = Some("link".to_string());
    assert_eq!(flat(&describe_media(&m).unwrap()), "Shared media_url media: link");
    m.media_owner = Some("own".to_string());
    m.media_share_url = Some("share".to_string());
    assert_eq!(flat(&describe_media(&m).unwrap()), "Shared media from own: share");
    m.media = Some("up".to_string());
    assert_eq!(flat(&describe_media(&m).unwrap()), "Uploaded media: up");
}

#[test]
fn words_and_numbers() {
    assert_eq!(split_words("  f  hello\tworld \u{3000}x "), vec!["f", "hello", "world", "x"]);
    assert!(split_words(" \n ").is_empty());
    assert_eq!(parse_usize("+5"), Some(5));
    assert_eq!(parse_usize("042"), Some(42));
    assert_eq!(parse_usize("-1"), None);
    assert_eq!(parse_usize("+"), None);
    assert_eq!(parse_usize(""), None);
    assert_eq!(parse_usize("12a"), None);
    assert_eq!(parse_usize("99999999999999999999999"), None);
    assert_eq!(parse_usize(&usize::MAX.to_string()), Some(usize::MAX));
}

#[test]
fn decimal_parses_back() {
    for n in [0u64, 7, 10, 99, 1000, 123456789, u32::MAX as u64] {
        let s = decimal_string(n);
        assert_eq!(s, n.to_string());
        assert_eq!(parse_usize(&s), Some(n as usize));
    }
}

#[test]
fn byte_lengths_and_search() {
    assert!(byte_len_below("ab", 3));
    assert!(!byte_len_below("é", 2));
    assert!(!byte_len_below("abc", 3));
    assert!(contains_str("hello world", "lo w"));
    assert!(contains_str("abc", ""));
    assert!(!contains_str("abc", "abcd"));
}

#[test]
fn browser_toggles_undo() {
    let t = sample_thread();
    let mut b = Browser::new();
    let (r, show) = b.step(&t, "af");
    assert!(matches!(r, BrowseReplyOf::AutoForward(false)));
    assert!(!show);
    let (r, _) = b.step(&t, "af");
    assert!(matches!(r, BrowseReplyOf::AutoForward(true)));
    assert_eq!(b, Browser::new());
    let (r, _) = b.step(&t, "raf");
    assert!(matches!(r, BrowseReplyOf::Direction(false)));
    let (r, _) = b.step(&t, "raf");
    assert!(matches!(r, BrowseReplyOf::Direction(true)));
    assert_eq!(b, Browser::new());
}

#[test]
fn browser_moves() {
    let t = sample_thread();
    let mut b = Browser::new();
    let (_, show) = b.step(&t, "");
    assert!(show);
    assert_eq!(b.current, 1);
    b.step(&t, ". ");
    assert_eq!(b.current, 2);
    b.step(&t, ", ");
    assert_eq!(b.current, 1);
    b.step(&t, "e ");
    assert_eq!(b.current, 4);
    let (r, show) = b.step(&t, "");
    assert!(matches!(r, BrowseReplyOf::ReachedEnd));
    assert!(!show);
    let (r, show) = b.step(&t, ". ");
    assert!(matches!(r, BrowseReplyOf::ReachedEnd));
    assert!(!show);
    assert_eq!(b.current, 4);
    b.step(&t, "s ");
    assert_eq!(b.current, 0);
    let (r, _) = b.step(&t, "- ");
    assert!(matches!(r, BrowseReplyOf::ReachedStart));
    b.step(&t, "3");
    b.step(&t, "3 ");
    assert_eq!(b.current, 3);
    let (r, show) = b.step(&t, "9 ");
    assert!(matches!(r, BrowseReplyOf::IdOutOfRange(5)));
    assert!(show);
    let (r, _) = b.step(&t, "what");
    assert!(matches!(r, BrowseReplyOf::Unknown));
    let (r, _) = b.step(&t, "q ");
    assert!(matches!(r, BrowseReplyOf::Quit));
}

#[test]
fn next_at_newest_reaches_end() {
    let t = thread(
        &["a"],
        vec![
            text_message("a", "2021-01-02T05:18:00.000000+00:00", "new"),
            text_message("a", "2021-01-02T05:18:00.000000+00:00", "old"),
        ],
    );
    let mut b = Browser::new();
    assert_eq!(b.current, 0);
    assert_eq!(b.shown_index(&t), 1);
    let (r, show) = b.step(&t, ".\r");
    assert!(matches!(r, BrowseReplyOf::Nothing));
    assert!(show);
    assert_eq!(b.current, 1);
    assert_eq!(b.shown_index(&t), 0);
    let (r, show) = b.step(&t, ".\r");
    assert!(matches!(r, BrowseReplyOf::ReachedEnd));
    assert!(!show);
    assert_eq!(b.current, 1);
    let (r, _) = b.step(&t, "q\r");
    assert!(matches!(r, BrowseReplyOf::Quit));
}

#[test]
fn browser_likes_and_media() {
    let t = sample_thread();
    let mut b = Browser::new();
    let (r, show) = b.step(&t, "l ");
    assert!(matches!(r, BrowseReplyOf::Likes(4)));
    assert!(!show);
    let (r, _) = b.step(&t, "l 1");
    assert!(matches!(r, BrowseReplyOf::Likes(3)));
    let (r, _) = b.step(&t, "l 0");
    assert!(matches!(r, BrowseReplyOf::IdOutOfRange(5)));
    let (r, _) = b.step(&t, "l x");
    assert!(matches!(r, BrowseReplyOf::LikesSyntax));
    let (r, show) = b.step(&t, "m ");
    assert!(matches!(r, BrowseReplyOf::Media(4)));
    assert!(show);
    let (r, _) = b.step(&t, "m 2");
    assert!(matches!(r, BrowseReplyOf::Media(2)));
    let (r, show) = b.step(&t, "m x");
    assert!(matches!(r, BrowseReplyOf::Nothing));
    assert!(show);
    let (r, show) = b.step(&t, "m 9");
    assert!(matches!(r, BrowseReplyOf::Nothing));
    assert!(show);
}

#[test]
fn browser_find_ignores_case() {
    let t = sample_thread();
    let mut b = Browser::new();
    match b.step(&t, "f TOMORrow") {
        (BrowseReplyOf::Found(needle, hits), false) => {
            assert_eq!(needle, "TOMORrow");
            assert_eq!(hits, vec![1, 0]);
        }
        _ => panic!("expected hits"),
    }
    match b.step(&t, "f hello   there") {
        (BrowseReplyOf::Found(needle, hits), _) => {
            assert_eq!(needle, "hello there");
            assert_eq!(hits, vec![3]);
        }
        _ => panic!("expected hits"),
    }
    assert!(matches!(b.step(&t, "f ab").0, BrowseReplyOf::NeedleTooShort));
    assert!(matches!(b.step(&t, "f é").0, BrowseReplyOf::NeedleTooShort));
    assert!(matches!(b.step(&t, "f éé").0, BrowseReplyOf::Found(_, _)));
    assert!(matches!(b.step(&t, "f ").0, BrowseReplyOf::FindSyntax));
}

#[test]
fn browser_find_user() {
    let t = sample_thread();
    let mut b = Browser::new();
    match b.step(&t, "fu alice") {
        (BrowseReplyOf::FoundUser(user, hits), _) => {
            assert_eq!(user, "alice");
            assert_eq!(hits, vec![3, 1]);
        }
        _ => panic!("expected hits"),
    }
    assert!(matches!(b.step(&t, "fu carol").0, BrowseReplyOf::UserNotFound));
    assert!(matches!(b.step(&t, "fu a b").0, BrowseReplyOf::FindUserSyntax));
}

#[test]
fn console_commands() {
    let archive = vec![sample_thread(), thread(&["me"], vec![])];
    let mut c = Console::new();
    assert!(matches!(c.step(&archive, "q"), ConsoleReplyOf::Nothing));
    assert!(matches!(c.step(&archive, "q\r"), ConsoleReplyOf::Quit));
    assert!(matches!(c.step(&archive, "lat"), ConsoleReplyOf::ListThreads));
    assert!(matches!(c.step(&archive, "t 1"), ConsoleReplyOf::Nothing));
    assert_eq!(c.current, 1);
    assert!(matches!(c.step(&archive, "t 2"), ConsoleReplyOf::Nothing));
    assert_eq!(c.current, 2);
    assert!(matches!(
        c.step(&archive, "t 3"),
        ConsoleReplyOf::ThreadRefused(IdComplaint::TooLarge(2))
    ));
    assert!(matches!(c.step(&archive, "t x"), ConsoleReplyOf::ThreadRefused(IdComplaint::NotInt)));
    assert!(matches!(c.step(&archive, "t "), ConsoleReplyOf::ChangeThreadSyntax));
    assert_eq!(c.current, 2);
    assert!(matches!(c.step(&archive, "t 0"), ConsoleReplyOf::Nothing));
    assert!(matches!(c.step(&archive, "ti"), ConsoleReplyOf::ThreadInfo(0, None)));
    assert!(matches!(c.step(&archive, "ti 1"), ConsoleReplyOf::ThreadInfo(1, None)));
    assert!(matches!(
        c.step(&archive, "ti 7"),
        ConsoleReplyOf::ThreadInfo(0, Some(IdComplaint::TooLarge(2)))
    ));
    assert!(matches!(c.step(&archive, "ams-mot d"), ConsoleReplyOf::OverTime(Interval::Day)));
    assert!(matches!(c.step(&archive, "ams-mot"), ConsoleReplyOf::OverTime(Interval::Month)));
    assert!(matches!(c.step(&archive, "ams-mot w"), ConsoleReplyOf::OverTime(Interval::Month)));
    assert!(matches!(c.step(&archive, "ams-mot y"), ConsoleReplyOf::OverTime(Interval::Year)));
    assert!(matches!(c.step(&archive, "ams"), ConsoleReplyOf::Stats));
    assert!(matches!(c.step(&archive, "ams-dt"), ConsoleReplyOf::DeltaTime));
    assert!(matches!(c.step(&archive, "m!"), ConsoleReplyOf::Browse));
    assert!(matches!(c.step(&archive, "fts"), ConsoleReplyOf::Setup));
    assert!(matches!(c.step(&archive, "zz"), ConsoleReplyOf::Unknown));
    assert!(matches!(c.step(&archive, "   "), ConsoleReplyOf::Nothing));
}

#[test]
fn console_global_search() {
    let archive = vec![sample_thread(), thread(&["me", "zed"], vec![text_message("zed", "t", "hello")])];
    let mut c = Console::new();
    match c.step(&archive, "gf HELLO") {
        ConsoleReplyOf::GlobalFind(needle, per_thread) => {
            assert_eq!(needle, "HELLO");
            assert_eq!(per_thread, vec![(0, vec![3]), (1, vec![0])]);
        }
        _ => panic!("expected hits"),
    }
    match c.step(&archive, "gfu zed") {
        ConsoleReplyOf::GlobalFindUser(user, per_thread) => {
            assert_eq!(user, "zed");
            assert_eq!(per_thread, vec![(0, vec![]), (1, vec![0])]);
        }
        _ => panic!("expected hits"),
    }
    assert!(matches!(c.step(&archive, "gfu nobody"), ConsoleReplyOf::UserNotFound));
    assert!(matches!(c.step(&archive, "gf hi"), ConsoleReplyOf::NeedleTooShort));
    assert!(matches!(c.step(&archive, "gf"), ConsoleReplyOf::GlobalFindSyntax));
}

#[test]
fn leaderboard_ranks_senders() {
    let mut t = sample_thread();
    t.participants.push("alice".to_string());
    t.participants.push("carol".to_string());
    let board = leaderboard(&t);
    let names: Vec<(&str, usize)> = board.entries.iter().map(|(n, c)| (n.as_str(), *c)).collect();
    // alice and bob both sent two: alice comes first in the participant list.
    assert_eq!(names, vec![("alice", 2), ("bob", 2), ("me", 1)]);
    // alice is listed twice, so her messages count twice in the total.
    assert_eq!(board.total, 7);
}

#[test]
fn messages_per_period() {
    let t = sample_thread();
    let months = messages_over_time(&t, Interval::Month).unwrap();
    assert_eq!(
        months,
        vec![
            ("2020-12".to_string(), 1),
            ("2021-01".to_string(), 1),
            ("2021-02".to_string(), 2),
            ("2021-03".to_string(), 1),
        ]
    );
    let years = messages_over_time(&t, Interval::Year).unwrap();
    assert_eq!(years, vec![("2020".to_string(), 1), ("2021".to_string(), 4)]);
    let days = messages_over_time(&t, Interval::Day).unwrap();
    assert_eq!(days[2], ("2021-02-15".to_string(), 2));
    let bad = thread(&["me"], vec![message("me", "2020T10")]);
    assert!(messages_over_time(&bad, Interval::Month).is_none());
    assert_eq!(messages_over_time(&bad, Interval::Year).unwrap(), vec![("2020".to_string(), 1)]);
}

#[test]
fn gaps_between_messages() {
    let t = sample_thread();
    let gaps = thread_gaps(&t).unwrap();
    // oldest first: 2020-12-31T23:59:59.5 -> 2021-01-10T08:00:00
    let first = ((9 * 24 + 8) * 3600) as i128 * 1_000_000_000 + 500_000_000;
    assert_eq!(gaps[0], first);
    assert_eq!(gaps.len(), 4);
    let stats = gap_stats(&gaps);
    assert_eq!(stats.longest_pos, 1);
    assert_eq!(stats.longest, gaps[1]);
    assert_eq!(stats.shortest, 1800 * 1_000_000_000);
    let bad = thread(&["me"], vec![message("me", "nope"), message("me", "2020-01-01T00:00:00.000000+00:00")]);
    assert!(thread_gaps(&bad).is_none());
}

#[test]
fn shortest_is_least_gap() {
    let stats = gap_stats(&vec![5, 7, 9]);
    assert_eq!(stats.longest, 9);
    assert_eq!(stats.longest_pos, 2);
    assert_eq!(stats.shortest, 5);
    let stats = gap_stats(&vec![5, 3, 9, 4]);
    assert_eq!(stats.shortest, 3);
    let stats = gap_stats(&vec![7, 2, 7]);
    assert_eq!(stats.longest, 7);
    assert_eq!(stats.longest_pos, 0);
    assert_eq!(stats.shortest, 2);
    let stats = gap_stats(&vec![]);
    assert_eq!(stats.longest, -9223372036854775807000000);
    assert_eq!(stats.longest_pos, 0);
    assert_eq!(stats.shortest, 9223372036854775807000000);
}

#[test]
fn clock_texts() {
    assert_eq!(gap_clock_text(3661_534_000_000).unwrap(), "01:01:01.534");
    assert_eq!(gap_clock_text(0).unwrap(), "00:00:00.000");
    assert_eq!(gap_clock_text(360_000 * 1_000_000_000).unwrap(), "100:00:00.000");
    assert!(gap_clock_text(-1).is_none());
    assert_eq!(
        gap_clock_text(9223372036854775807000000).unwrap(),
        "2562047788015:12:55.807"
    );
}

#[test]
fn thread_facts() {
    let t = sample_thread();
    let info = thread_info(&t);
    assert_eq!(info.participants, 3);
    assert_eq!(info.messages, 5);
    assert_eq!(info.first_date, "2020-12-31T23:59:59.500000+00:00");
    assert_eq!(info.latest_date, "2021-03-01T10:00:00.000000+00:00");
}

#[test]
fn thread_listing() {
    let archive = vec![
        sample_thread(),
        thread(&["me"], vec![]),
        thread(&["zed", "me"], vec![]),
        thread(&["x", "y"], vec![]),
    ];
    assert!(overview(&archive, 0, "me").is_none());
    let archive = vec![sample_thread(), thread(&["me"], vec![]), thread(&["zed", "me"], vec![])];
    let lines = overview(&archive, 2, "me").unwrap();
    assert_eq!(flat(&lines[0]), "    thread 0 with 3 people including alice, bob ");
    assert_eq!(flat(&lines[1]), "    thread 1 with just yourself");
    assert_eq!(flat(&lines[2]), ">>> thread 2 with zed");
    assert_eq!(lines[2][1].style, Style::Name);
}

#[test]
fn renamings() {
    let mut a = message("alice", "2020-01-01T00:00:00+00:00");
    a.action = Some("alice named the group Friends".to_string());
    let mut b = message("bob", "2020-02-01T00:00:00+00:00");
    b.action = Some("carol named the group Old named the group New".to_string());
    let t = thread(&["alice", "bob"], vec![b, a, message("bob", "x")]);
    let lines = name_changes(&t).unwrap();
    assert_eq!(lines.len(), 2);
    assert_eq!(flat(&lines[0]), "2020-01-01T00:00:00: alice named it 'Friends'");
    assert_eq!(flat(&lines[1]), "2020-02-01T00:00:00: carol (bob) named it 'Old'");
    assert_eq!(lines[1][4].style, Style::Note);
    let mut c = message("x", "t");
    c.action = Some("named the group".to_string());
    assert!(name_changes(&thread(&["x"], vec![c])).is_none());
}

#[test]
fn periods_count_every_message() {
    let t = sample_thread();
    for iv in [Interval::Day, Interval::Month, Interval::Year] {
        let tally = messages_over_time(&t, iv).unwrap();
        let counted: usize = tally.iter().map(|(_, c)| *c).sum();
        assert_eq!(counted, t.conversation.len());
    }
}

#[test]
fn leaderboard_counts_every_message() {
    let mut t = sample_thread();
    t.conversation.push(text_message("stranger", "2020-01-01T00:00:00.000000+00:00", "x"));
    let board = leaderboard(&t);
    let counted: usize = board.entries.iter().map(|(_, c)| *c).sum();
    // Five of the six messages come from participants.
    assert_eq!(counted, 5);
}

#[test]
fn words_are_nonblank() {
    for w in split_words(" a\u{a0}b \t c\u{2028}d  ") {
        assert!(!w.is_empty());
        assert!(!w.chars().any(|c| c.is_whitespace()));
    }
    assert_eq!(split_words("x\u{200b}y"), vec!["x\u{200b}y"]);
}

#[test]
fn next_then_previous_returns() {
    let t = sample_thread();
    let mut b = Browser::new();
    b.step(&t, "2 ");
    let before = b;
    b.step(&t, "+ ");
    assert_eq!(b.current, 3);
    b.step(&t, "_ ");
    assert_eq!(b, before);
}

#[test]
fn browsing_stays_in_thread() {
    let t = sample_thread();
    let mut b = Browser::new();
    assert_eq!(b.shown_index(&t), 4);
    for line in [". ", ". ", ". ", ". ", ". ", ". ", "", "e ", "", "raf", "", "", "9 ", "0 ", "s ", "- ", "3 ", "m 7", "l 0"] {
        b.step(&t, line);
        assert!(b.current < t.conversation.len());
        assert_eq!(b.shown_index(&t), t.conversation.len() - 1 - b.current);
    }
}

#[test]
fn gaps_stay_in_range() {
    let t = thread(
        &["me"],
        vec![message("me", "9999-12-31T23:59:59.999999+00:00"), message("me", "0001-01-01T00:00:00.000000+00:00")],
    );
    let gaps = thread_gaps(&t).unwrap();
    assert_eq!(gaps.len(), 1);
    assert!(gaps[0] > 0 && gaps[0] <= 9223372036854775807000000);
    let stats = gap_stats(&gaps);
    assert_eq!(stats.longest, gaps[0]);
    assert!(gap_clock_text(stats.longest).is_some());
}

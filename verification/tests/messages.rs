use fluxer_bounty_bot::message::{
    bounty_content_to_message, submission_message, BountyAuthor, UserInfo, AVATAR_URL_BASE,
    STATIC_BASE,
};
use fluxer_bounty_bot::model::{
    BountyInfoKey, BountyNum, BountyStakeholder, BountyState, BountySubmissionContent,
    BountySubmissionFormat, QueuedBountyAssignee,
};
use fluxer_bounty_bot::ping::{ping_description, PingReport, RuntimeFlavor, WorkerStats};

fn sample_content() -> BountySubmissionContent {
    let mut c = BountySubmissionContent::new();
    c.insert(BountyInfoKey::BountyAmount, "10$".to_owned());
    c.insert(BountyInfoKey::Title, "My bounty".to_owned());
    c.insert(BountyInfoKey::Deadline, "tomorrow".to_owned());
    c.insert(BountyInfoKey::IssueUrl, "https://x/1".to_owned());
    c
}

fn assignee(user_id: u64, queued_at: i64) -> QueuedBountyAssignee {
    QueuedBountyAssignee { bounty_id: 1, user_id, queued_at }
}

#[test]
fn full_bounty_message() {
    let format = BountySubmissionFormat::default();
    let author = BountyAuthor::Known(UserInfo {
        id: 13,
        username: "alice".to_owned(),
        discriminator: "0001".to_owned(),
        avatar: None,
    });
    let m = bounty_content_to_message(
        &sample_content(),
        author,
        &format,
        BountyNum(42),
        1_700_000_000_000_000,
        BountyState::Approved,
        vec![assignee(5, 200), assignee(7, 100), assignee(8, 200)],
        Some(1_700_000_000),
        vec![
            BountyStakeholder { bounty_id: 1, user_id: 5, amount: 1050, note: Some("thanks".to_owned()) },
            BountyStakeholder { bounty_id: 1, user_id: 9, amount: -5, note: None },
        ],
    );
    assert_eq!(m.title, "My bounty");
    let expected = format!(
        "## Issue URL\nhttps://x/1\n## Bounty Amount\n10$\n===\n**Assigned to**\n[**Assigned**] <@7>\n[**Queued**] <@5>\n[**Queued**] <@8>\n**Due date**\n<t:1700000000:s>\n**Bounty Amount (USD)**\n`${:.2}` by <@5> - thanks\n`${:.2}` by <@9>\n**Total Bounty Amount (USD)**\n`${:.2}`\n",
        1050f64 / 100.0,
        -5f64 / 100.0,
        1045f64 / 100.0,
    );
    assert_eq!(m.description, expected);
    assert_eq!(m.author_name, "alice#0001 (13)");
    // The default avatar depends on the user ID (13 % 6 == 1).
    assert_eq!(m.author_icon_url, format!("{STATIC_BASE}/avatars/1.png"));
    assert_eq!(m.footer, "42 - Approved");
    assert_eq!(m.color, 0xFEE75C);
    assert_eq!(m.timestamp, 1_700_000_000_000_000);
}

#[test]
fn empty_bounty_message() {
    let format = BountySubmissionFormat::default();
    let m = bounty_content_to_message(
        &BountySubmissionContent::new(),
        BountyAuthor::Unknown(77),
        &format,
        BountyNum(1),
        0,
        BountyState::Pending,
        vec![],
        None,
        vec![],
    );
    assert_eq!(m.title, "*No title*");
    assert_eq!(m.description, "\n===\n**Assigned to**\n*No one*\n");
    assert_eq!(m.author_name, "77");
    assert_eq!(m.author_icon_url, format!("{STATIC_BASE}/avatars/0.png"));
    assert_eq!(m.footer, "1 - Pending");
}

#[test]
fn avatar_and_missing_titles() {
    let mut format = BountySubmissionFormat::default();
    format.titles[2] = Vec::new();
    let author = BountyAuthor::Known(UserInfo {
        id: 99,
        username: "bob".to_owned(),
        discriminator: "1234".to_owned(),
        avatar: Some("abc".to_owned()),
    });
    let m = bounty_content_to_message(
        &sample_content(),
        author,
        &format,
        BountyNum(3),
        5,
        BountyState::Rejected,
        vec![],
        None,
        vec![BountyStakeholder { bounty_id: 1, user_id: 2, amount: 0, note: None }],
    );
    assert_eq!(m.author_icon_url, format!("{AVATAR_URL_BASE}/99/abc.webp?size=128"));
    assert!(m.description.starts_with("## *no titles for key*\nhttps://x/1\n"));
    assert!(m.description.ends_with("`$0.00` by <@2>\n**Total Bounty Amount (USD)**\n`$0.00`\n"));
    assert_eq!(m.footer, "3 - Rejected");
}

#[test]
fn dollar_amounts_match_two_decimal_formatting() {
    let format = BountySubmissionFormat::default();
    for amount in [0i32, 1, 5, 99, 100, 105, 12345, -1, -100, -12345, i32::MAX, i32::MIN] {
        let m = bounty_content_to_message(
            &BountySubmissionContent::new(),
            BountyAuthor::Unknown(1),
            &format,
            BountyNum(1),
            0,
            BountyState::Completed,
            vec![],
            None,
            vec![BountyStakeholder { bounty_id: 1, user_id: 2, amount, note: None }],
        );
        let shown = format!("{:.2}", f64::from(amount) / 100.0);
        assert!(m.description.contains(&format!("`${shown}` by <@2>")), "{amount}");
    }
}

#[test]
fn submission_message_shows_deadline_section() {
    let format = BountySubmissionFormat::default();
    let user = UserInfo { id: 12, username: "carol".to_owned(), discriminator: "0002".to_owned(), avatar: None };
    let m = submission_message(&sample_content(), &user, &format, BountyNum(8), 123);
    assert_eq!(m.title, "My bounty");
    assert_eq!(
        m.description,
        "## Due Date\ntomorrow\n## Issue URL\nhttps://x/1\n## Bounty Amount\n10$"
    );
    assert_eq!(m.author_name, "carol#0002 (12)");
    assert_eq!(m.author_icon_url, format!("{STATIC_BASE}/avatars/0.png"));
    assert_eq!(m.footer, "8");
    assert_eq!(m.color, 0xFEE75C);
}

#[test]
fn ping_text() {
    let report = PingReport {
        latency_millis: -3,
        send_latency_millis: Some(12),
        gateway_latency_millis: None,
        os: "linux".to_owned(),
        family: "unix".to_owned(),
        runtime_id: "1".to_owned(),
        flavor: RuntimeFlavor::MultiThread,
        alive_tasks: 4,
        workers: vec![
            WorkerStats { park_count: 2, unpark_count: 3, busy_millis: 1500 },
            WorkerStats { park_count: 0, unpark_count: 0, busy_millis: 0 },
        ],
    };
    let expected = "**Latency:** -3 ms\n**Message send latency:** 12 ms\n**Gateway latency:** *No response*\n**Running on:** linux (unix)\n\n__tokio metrics__\n**ID:** 1\n**Flavor:** Multi Thread\n**Number of workers:** 2\n**Number of alive tasks:** 4\n```\nWorker #0: 2 times parked, 3 times unparked, total busy for 1s 500ms\nWorker #1: 0 times parked, 0 times unparked, total busy for 0ms\n```";
    assert_eq!(ping_description(&report), expected);
}

#[test]
fn ping_text_without_send_latency() {
    let report = PingReport {
        latency_millis: 250,
        send_latency_millis: None,
        gateway_latency_millis: Some(40),
        os: "windows".to_owned(),
        family: "windows".to_owned(),
        runtime_id: "7".to_owned(),
        flavor: RuntimeFlavor::CurrentThread,
        alive_tasks: 0,
        workers: vec![],
    };
    let expected = "**Latency:** 250 ms\n**Gateway latency:** 40 ms\n**Running on:** windows (windows)\n\n__tokio metrics__\n**ID:** 7\n**Flavor:** Current Thread\n**Number of workers:** 0\n**Number of alive tasks:** 0\n```\n\n```";
    assert_eq!(ping_description(&report), expected);
}

#[test]
fn busy_times_in_every_unit() {
    let cases: [(u64, &str); 5] = [
        (90061001, "1d 1h 1m 1s 1ms"),
        (2629800000, "1mon 30d 10h 30m"),
        (94670778005, "3y 35mon 71d 17h 26m 18s 5ms"),
        (25920000000, "9mon 44d"),
        (u64::MAX, "38946y 105mon 254d 14h 25m 51s 615ms"),
    ];
    for (millis, text) in cases {
        let report = PingReport {
            latency_millis: 0,
            send_latency_millis: None,
            gateway_latency_millis: None,
            os: "linux".to_owned(),
            family: "unix".to_owned(),
            runtime_id: "1".to_owned(),
            flavor: RuntimeFlavor::Other,
            alive_tasks: 1,
            workers: vec![WorkerStats { park_count: 1, unpark_count: 1, busy_millis: millis }],
        };
        let expected = format!("**Latency:** 0 ms\n**Gateway latency:** *No response*\n**Running on:** linux (unix)\n\n__tokio metrics__\n**ID:** 1\n**Flavor:** Unknown\n**Number of workers:** 1\n**Number of alive tasks:** 1\n```\nWorker #0: 1 times parked, 1 times unparked, total busy for {text}\n```");
        assert_eq!(ping_description(&report), expected);
    }
}

use fluxer_bounty_bot::args::{bounty_arg_error_text, bounty_num_from_args, BountyArgError};
use fluxer_bounty_bot::ids::{parse_channel_mention_or_id_or_link, parse_mention_or_id};
use fluxer_bounty_bot::model::{BountyInfoKey, BountyNum, BountySubmissionContent, BountySubmissionFormat};
use fluxer_bounty_bot::submission::{assign_sections, parse_message_content_as_submission};

#[test]
fn mention_and_id_are_read() {
    assert_eq!(parse_mention_or_id("<@1234>"), Some(1234));
    assert_eq!(parse_mention_or_id("   <@1234>"), Some(1234));
    assert_eq!(parse_mention_or_id("1234"), Some(1234));
    assert_eq!(parse_mention_or_id("+1234"), Some(1234));
    assert_eq!(parse_mention_or_id("<@>"), None);
    assert_eq!(parse_mention_or_id("<@12a>"), None);
    assert_eq!(parse_mention_or_id("someone"), None);
    assert_eq!(parse_mention_or_id(""), None);
    // Only leading whitespace is skipped, and only for mentions.
    assert_eq!(parse_mention_or_id(" 1234"), None);
    assert_eq!(parse_mention_or_id("<@1234> "), None);
    // Out of range for 64 bits.
    assert_eq!(parse_mention_or_id("18446744073709551616"), None);
    assert_eq!(parse_mention_or_id("18446744073709551615"), Some(u64::MAX));
}

#[test]
fn user_mention_roundtrip_examples() {
    for id in [0u64, 7, 1130650140672000000, u64::MAX] {
        assert_eq!(parse_mention_or_id(&format!("<@{id}>")), Some(id));
        assert_eq!(parse_mention_or_id(&id.to_string()), Some(id));
    }
}

#[test]
fn channel_references_are_read() {
    assert_eq!(parse_channel_mention_or_id_or_link("<#55>"), Some((None, 55)));
    assert_eq!(parse_channel_mention_or_id_or_link("  <#55>  "), Some((None, 55)));
    assert_eq!(parse_channel_mention_or_id_or_link("<#55"), None);
    assert_eq!(parse_channel_mention_or_id_or_link("<#x>"), None);
    assert_eq!(parse_channel_mention_or_id_or_link("55"), Some((None, 55)));
    assert_eq!(
        parse_channel_mention_or_id_or_link("https://web.fluxer.app/channels/11/22"),
        Some((Some(11), 22))
    );
    assert_eq!(
        parse_channel_mention_or_id_or_link("https://web.fluxer.app/channels/11/22/"),
        Some((Some(11), 22))
    );
    assert_eq!(parse_channel_mention_or_id_or_link("11//22"), Some((Some(11), 22)));
    assert_eq!(parse_channel_mention_or_id_or_link("/22"), None);
    assert_eq!(parse_channel_mention_or_id_or_link("a/b"), None);
    assert_eq!(parse_channel_mention_or_id_or_link(""), None);
}

#[test]
fn channel_link_law_example() {
    assert_eq!(
        parse_channel_mention_or_id_or_link("fluxer.app/channels/1427764813854588940/1483532018185537313"),
        Some((Some(1427764813854588940), 1483532018185537313))
    );
    assert_eq!(parse_channel_mention_or_id_or_link("/7/8"), Some((Some(7), 8)));
}

#[test]
fn bounty_number_arguments() {
    match bounty_num_from_args("  42 some rest  ") {
        Ok((n, rest)) => {
            assert_eq!(n, BountyNum(42));
            assert_eq!(rest, "some rest");
        }
        Err(_) => panic!("expected a bounty number"),
    }
    match bounty_num_from_args("42") {
        Ok((n, rest)) => {
            assert_eq!(n, BountyNum(42));
            assert_eq!(rest, "");
        }
        Err(_) => panic!("expected a bounty number"),
    }
    assert!(matches!(bounty_num_from_args("   "), Err(BountyArgError::MissingId)));
    assert!(matches!(bounty_num_from_args("abc 1"), Err(BountyArgError::InvalidId)));
    assert_eq!(
        bounty_arg_error_text(BountyArgError::MissingId, "approve"),
        "Provide a bounty ID to approve that bounty."
    );
    assert_eq!(
        bounty_arg_error_text(BountyArgError::InvalidId, "approve"),
        "Could not parse the bounty ID."
    );
}

#[test]
fn bounty_args_roundtrip_example() {
    let n = BountyNum(9001);
    let text = format!("{} {}", n.to_text(), "<@5> note");
    match bounty_num_from_args(&text) {
        Ok((m, rest)) => {
            assert_eq!(m, n);
            assert_eq!(rest, "<@5> note");
        }
        Err(_) => panic!("expected a bounty number"),
    }
    assert_eq!(BountyNum::parse("+17"), Some(BountyNum(17)));
    assert_eq!(BountyNum::parse("-17"), None);
}

#[test]
fn titles_match_ignoring_case_and_first_key_wins() {
    let format = BountySubmissionFormat::default();
    let content = "intro text that is ignored\n## TITLE\n  Fix it  \n## issue url\nhttps://example.com/1\n## Unknown\nignored\n## Amount\n5$";
    let mut expected = BountySubmissionContent::new();
    expected.insert(BountyInfoKey::Title, "Fix it".to_owned());
    expected.insert(BountyInfoKey::IssueUrl, "https://example.com/1".to_owned());
    expected.insert(BountyInfoKey::BountyAmount, "5$".to_owned());
    assert_eq!(parse_message_content_as_submission(&format, content), expected);
}

#[test]
fn later_section_replaces_earlier_and_texts_are_trimmed() {
    let format = BountySubmissionFormat::default();
    let content = "## Title\r\nfirst\r\n## Bounty Title\n\n  second line\n\tthird  \n";
    let parsed = parse_message_content_as_submission(&format, content);
    assert_eq!(parsed.get(BountyInfoKey::Title), Some("second line\n\tthird".to_owned()));
    for key in [
        BountyInfoKey::Title,
        BountyInfoKey::Deadline,
        BountyInfoKey::IssueUrl,
        BountyInfoKey::AdditionalInfo,
        BountyInfoKey::JudgingCriteria,
        BountyInfoKey::BountyAmount,
    ] {
        if let Some(text) = parsed.get(key) {
            assert_eq!(text.trim(), text);
        }
    }
    assert!(!parsed.contains_key(BountyInfoKey::Deadline));
}

#[test]
fn header_needs_marker_with_space() {
    let format = BountySubmissionFormat::default();
    let parsed = parse_message_content_as_submission(&format, "##Title\nx\n## \ny\n#Title\nz");
    assert_eq!(parsed, BountySubmissionContent::new());
}

#[test]
fn format_titles_differing_in_case_read_alike() {
    let lower = BountySubmissionFormat::default();
    let mut upper = BountySubmissionFormat::default();
    for titles in upper.titles.iter_mut() {
        for t in titles.iter_mut() {
            *t = t.to_uppercase();
        }
    }
    let content = "## bounty title\nA\n## deadline\ntomorrow\n## CRITERIA\nfast";
    let a = parse_message_content_as_submission(&lower, content);
    let b = parse_message_content_as_submission(&upper, content);
    assert_eq!(a, b);
    assert_eq!(a.get(BountyInfoKey::Title), Some("A".to_owned()));
    assert_eq!(a.get(BountyInfoKey::Deadline), Some("tomorrow".to_owned()));
    assert_eq!(a.get(BountyInfoKey::JudgingCriteria), Some("fast".to_owned()));
}

#[test]
fn heading_lines_differing_in_title_case_read_alike() {
    let format = BountySubmissionFormat::default();
    let a = parse_message_content_as_submission(&format, "intro\n  ##   BOUNTY TITLE \r\nx\n## Issue\ny");
    let b = parse_message_content_as_submission(&format, "intro\n## bounty title\r\nx\n## Issue\ny");
    assert_eq!(a, b);
    assert_eq!(a.get(BountyInfoKey::Title), Some("x".to_owned()));
    assert_eq!(a.get(BountyInfoKey::IssueUrl), Some("y".to_owned()));
    let c = parse_message_content_as_submission(&format, "## TITLE\nx");
    let d = parse_message_content_as_submission(&format, "## title\nx");
    assert_eq!(c, d);
    assert_eq!(c.get(BountyInfoKey::Title), Some("x".to_owned()));
}

#[test]
fn references_with_surrounding_whitespace_and_trailing_slashes() {
    for id in [0u64, 42, u64::MAX] {
        assert_eq!(parse_mention_or_id(&format!(" \t <@{id}>")), Some(id));
        assert_eq!(parse_channel_mention_or_id_or_link(&format!("\n <#{id}> \t")), Some((None, id)));
        assert_eq!(parse_channel_mention_or_id_or_link(&format!("  {id}  ")), Some((None, id)));
    }
    assert_eq!(
        parse_channel_mention_or_id_or_link("  https://web.fluxer.app/channels/11/22///  "),
        Some((Some(11), 22))
    );
    // A link that starts like a channel mention is read as a (broken) mention.
    assert_eq!(parse_channel_mention_or_id_or_link("<#x/1/2"), None);
}

#[test]
fn sections_are_assigned_by_exact_lowercased_titles() {
    let row = |ts: &[&str]| ts.iter().map(|t| t.to_string()).collect::<Vec<String>>();
    let table = vec![
        row(&["title", "bounty title"]),
        row(&["due date", "deadline"]),
        row(&["issue url", "issue", "shared"]),
        row(&["additional information", "additional info"]),
        row(&["judging criteria", "criteria", "shared"]),
        row(&["bounty amount", "amount"]),
    ];
    let pair = |a: &str, b: &str| (a.to_string(), b.to_string());
    let sections = vec![
        pair("bounty title", "x"),
        pair("Bounty Title", "not matched: titles are compared as given"),
        pair("shared", "first key with the title"),
        pair("title", "z"),
    ];
    let r = assign_sections(&table, &sections);
    let mut expected = BountySubmissionContent::new();
    expected.insert(BountyInfoKey::Title, "z".to_owned());
    expected.insert(BountyInfoKey::IssueUrl, "first key with the title".to_owned());
    assert_eq!(r, expected);
    assert_eq!(assign_sections(&table, &Vec::new()), BountySubmissionContent::new());
}

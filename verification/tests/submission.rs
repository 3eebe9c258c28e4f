use fluxer_bounty_bot::model::{BountyInfoKey, BountySubmissionContent, BountySubmissionFormat};
use fluxer_bounty_bot::submission::parse_message_content_as_submission;

#[test]
fn test_parse_message_content_as_submission() {
    let format = BountySubmissionFormat::default();

    {
        let content = "
            ## Title
            Some content
            ";
        assert_eq!(parse_message_content_as_submission(&format, content), {
            let mut map = BountySubmissionContent::new();
            map.insert(BountyInfoKey::Title, "Some content".to_owned());
            map
        });
    }
    {
        let content = "## Bounty title
## Deadline
never™
or actually- yesterday!

## Amount
one miwwion dollahs";
        assert_eq!(parse_message_content_as_submission(&format, content), {
            let mut map = BountySubmissionContent::new();
            map.insert(BountyInfoKey::Title, String::new());
            map.insert(
                BountyInfoKey::Deadline,
                "never™\nor actually- yesterday!".to_owned(),
            );
            map.insert(
                BountyInfoKey::BountyAmount,
                "one miwwion dollahs".to_owned(),
            );
            map
        });
    }
}

# fluxer_bounty_bot

The logic of a bounty bot for the Fluxer chat platform, verified with Verus.

Members post bounty submissions as messages made of `## Title` sections; the
bot reads them against the community's format, asks for what is missing, shows
each bounty in the channel of its stage and keeps that message up to date as the
bounty moves on. Reactions answer confirmation prompts.

## Layout

- `src/` — the verified library.
  - `text.rs`: trimming, lines, joining, decimal formatting and parsing.
  - `model.rs`: keys, submission formats and contents, bounty numbers and states.
  - `submission.rs`: reading a submission out of a message, with its laws.
  - `ids.rs`: user and channel references (mentions, IDs, links).
  - `args.rs`: bounty-number command arguments.
  - `message.rs`: the text of a bounty's message (sections, assignee queue,
    due date, contributions in dollars).
  - `workflow.rs`: checking a submission, choosing a bounty's channel and how
    its message is brought up to date.
  - `confirmation.rs`: confirmation prompts answered by reactions.
  - `reactions.rs`: the table of reaction handlers and their expiry.
  - `ping.rs`: the text of the `ping` answer.
- `tests/` — tests of the library on concrete values.
- `app/` — the bot around the library: gateway events, commands, database
  access and message sending.

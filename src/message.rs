use vstd::prelude::*;

use crate::model::{Id, NewMessage};

verus! {

/// One line of the command overview.
pub struct CommandSummary {
    pub name: String,
    pub description: String,
}

/// The command overview to post to a channel.
pub struct SendSummaryHelpMessage {
    pub channel_id: String,
    pub commands: Vec<CommandSummary>,
}

/// The help of one command.
pub struct Command {
    pub name: String,
    pub title: String,
    pub description: String,
    pub example: String,
}

/// The help of one command to post to a channel.
pub struct SendHelpMessage {
    pub channel_id: String,
    pub command: Command,
}

/// A plain message to post to a channel.
pub struct SendMessage {
    pub channel_id: String,
    pub content: String,
    pub embed: bool,
}

impl CommandSummary {
    pub fn new(name: String, description: String) -> (r: CommandSummary)
        ensures
            r == (CommandSummary { name, description }),
    {
        CommandSummary { name, description }
    }
}

impl SendSummaryHelpMessage {
    pub fn new(channel_id: String, commands: Vec<CommandSummary>) -> (r: SendSummaryHelpMessage)
        ensures
            r == (SendSummaryHelpMessage { channel_id, commands }),
    {
        SendSummaryHelpMessage { channel_id, commands }
    }
}

impl Command {
    pub fn new(name: String, title: String, description: String, example: String) -> (r: Command)
        ensures
            r == (Command { name, title, description, example }),
    {
        Command { name, title, description, example }
    }
}

impl SendHelpMessage {
    pub fn new(channel_id: String, command: Command) -> (r: SendHelpMessage)
        ensures
            r == (SendHelpMessage { channel_id, command }),
    {
        SendHelpMessage { channel_id, command }
    }
}

impl SendMessage {
    pub fn new(channel_id: String, content: String, embed: bool) -> (r: SendMessage)
        ensures
            r == (SendMessage { channel_id, content, embed }),
    {
        SendMessage { channel_id, content, embed }
    }
}

pub open spec fn summary_text(name: Seq<char>, description: Seq<char>) -> Seq<char> {
    "- "@ + name + " (`"@ + description + "``)"@
}

/// The overview line of a command.
pub fn format_summary(command: &CommandSummary) -> (r: String)
    ensures
        r@ == summary_text(command.name@, command.description@),
{
    let mut out = String::new();
    out.append("- ");
    out.append(command.name.as_str());
    out.append(" (`");
    out.append(command.description.as_str());
    out.append("``)");
    assert(out@ =~= summary_text(command.name@, command.description@));
    out
}

pub open spec fn command_text(c: Command) -> Seq<char> {
    "### "@ + c.title@ + "(`"@ + c.name@ + "`)\n"@ + c.description@ + "\n```\n"@ + c.example@
        + "\n```"@
}

/// The help text of a command: its title and name, what it does, and an
/// example in a code block.
pub fn format_command(command: &Command) -> (r: String)
    ensures
        r@ == command_text(*command),
{
    let mut out = String::new();
    out.append("### ");
    out.append(command.title.as_str());
    out.append("(`");
    out.append(command.name.as_str());
    out.append("`)\n");
    out.append(command.description.as_str());
    out.append("\n```\n");
    out.append(command.example.as_str());
    out.append("\n```");
    assert(out@ =~= command_text(*command));
    out
}

/// The overview lines of the commands, one per line.
pub open spec fn summary_lines(cs: Seq<CommandSummary>) -> Seq<char>
    decreases cs.len(),
{
    if cs.len() == 0 {
        Seq::empty()
    } else if cs.len() == 1 {
        summary_text(cs[0].name@, cs[0].description@)
    } else {
        summary_lines(cs.drop_last()) + "\n"@ + summary_text(cs.last().name@, cs.last().description@)
    }
}

impl SendSummaryHelpMessage {
    /// The overview under a heading, as a message that is not embedded.
    pub fn into_new_message(self) -> (r: NewMessage)
        ensures
            r.channel_id@ == self.channel_id@,
            r.content@ == "### コマンド\n"@ + summary_lines(self.commands@),
            !r.embed,
    {
        let mut content = String::new();
        content.append("### コマンド\n");
        let ghost head = content@;
        let mut i: usize = 0;
        while i < self.commands.len()
            invariant
                i <= self.commands@.len(),
                head == "### コマンド\n"@,
                content@ == head + summary_lines(self.commands@.subrange(0, i as int)),
            decreases self.commands@.len() - i,
        {
            let line = format_summary(&self.commands[i]);
            let ghost prefix = self.commands@.subrange(0, i as int + 1);
            assert(prefix.drop_last() =~= self.commands@.subrange(0, i as int));
            if i > 0 {
                content.append("\n");
            }
            content.append(line.as_str());
            if i == 0 {
                assert(summary_lines(prefix) == summary_text(prefix[0].name@, prefix[0].description@));
                assert(summary_lines(self.commands@.subrange(0, 0)) =~= Seq::<char>::empty());
            }
            assert(content@ =~= head + summary_lines(prefix));
            i += 1;
        }
        assert(self.commands@.subrange(0, self.commands@.len() as int) =~= self.commands@);
        NewMessage::new(Id::new(self.channel_id), content, false)
    }
}

impl SendHelpMessage {
    /// The help of the command, as an embedded message.
    pub fn into_new_message(self) -> (r: NewMessage)
        ensures
            r.channel_id@ == self.channel_id@,
            r.content@ == command_text(self.command),
            r.embed,
    {
        let content = format_command(&self.command);
        NewMessage::new(Id::new(self.channel_id), content, true)
    }
}

impl SendMessage {
    pub fn into_new_message(self) -> (r: NewMessage)
        ensures
            r.channel_id@ == self.channel_id@,
            r.content == self.content,
            r.embed == self.embed,
    {
        NewMessage::new(Id::new(self.channel_id), self.content, self.embed)
    }
}

} // verus!

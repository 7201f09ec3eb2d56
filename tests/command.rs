use bookmaker::command::{escape_arg, is_help_command, is_mentioned, parse_args, Embedded};
use bookmaker::message::{
    format_command, format_summary, Command, CommandSummary, SendHelpMessage, SendMessage,
    SendSummaryHelpMessage,
};

#[test]
fn test_simple_args() {
    assert_eq!(parse_args("a b c"), vec!["a", "b", "c"]);
    assert_eq!(parse_args("a \"b c\""), vec!["a", "b c"]);

    assert_eq!(parse_args("\"a\" \"b\""), vec!["a", "b"]);
    assert_eq!(parse_args("\"a b\" \"c d\""), vec!["a b", "c d"]);

    assert_eq!(parse_args("a\\ b c"), vec!["a b", "c"]);
    assert_eq!(parse_args("\"a\\\"b\" c"), vec!["a\"b", "c"]);

    assert_eq!(parse_args("a#b c&d e^f"), vec!["a#b", "c&d", "e^f"]);
    assert_eq!(parse_args("\"a b c\" d e"), vec!["a b c", "d", "e"]);

    assert_eq!(parse_args("  a b c  "), vec!["a", "b", "c"]);
    assert_eq!(parse_args("  \"a b\" c  "), vec!["a b", "c"]);

    assert_eq!(parse_args(""), Vec::<String>::new());
    assert_eq!(parse_args("     "), Vec::<String>::new());
    assert_eq!(parse_args(" \"  \" "), vec!["  "]);
}

#[test]
fn parse_args_splits_on_unicode_white_space() {
    assert_eq!(parse_args("bet\u{3000}候補A\t1000\n"), vec!["bet", "候補A", "1000"]);
    assert_eq!(parse_args("start \"VCT PACIFIC\" Gen.G PRX"), vec!["start", "VCT PACIFIC", "Gen.G", "PRX"]);
}

#[test]
fn help_command_is_recognised() {
    assert!(is_help_command(&["help".to_string()]));
    assert!(is_help_command(&["--help".to_string(), "x".to_string()]));
    assert!(is_help_command(&["-h".to_string()]));
    assert!(!is_help_command(&["helpme".to_string()]));
    assert!(!is_help_command(&[]));
}

#[test]
fn escape_arg_quotes_only_arguments_with_a_space() {
    assert_eq!(escape_arg("a\"b"), "a\"b");
    assert_eq!(escape_arg("a b"), "\"a b\"");
    assert_eq!(escape_arg(" "), "\" \"");
    assert_eq!(escape_arg("a \"b\\"), "\"a \\\"b\\\\\"");
}

#[test]
fn escaped_argument_reads_back_as_one() {
    for arg in ["a b", "say \"hi\" now", "back\\slash here", "  "] {
        assert_eq!(parse_args(&escape_arg(arg)), vec![arg]);
    }
}

#[test]
fn mention_of_the_bot_is_found() {
    let e = vec![
        Embedded { raw: "@x".to_string(), kind: "channel".to_string(), id: "bot".to_string() },
        Embedded { raw: "@bot".to_string(), kind: "user".to_string(), id: "bot".to_string() },
    ];
    assert!(is_mentioned(&e, "bot"));
    assert!(!is_mentioned(&e[..1].iter().map(|x| Embedded { raw: x.raw.clone(), kind: x.kind.clone(), id: x.id.clone() }).collect(), "bot"));
    assert!(!is_mentioned(&e, "other"));
}

#[test]
fn help_texts_are_formatted() {
    let s = CommandSummary { name: "reg".to_string(), description: "登録".to_string() };
    assert_eq!(format_summary(&s), "- reg (`登録``)");
    let c = Command {
        name: "close".to_string(),
        title: "締め切り".to_string(),
        description: "bet を締め切ります".to_string(),
        example: "@BOT_bookmaker close".to_string(),
    };
    assert_eq!(format_command(&c), "### 締め切り(`close`)\nbet を締め切ります\n```\n@BOT_bookmaker close\n```");
    let m = SendHelpMessage { channel_id: "ch".to_string(), command: c }.into_new_message();
    assert!(m.embed);
    assert_eq!(m.channel_id.value, "ch");
    let summary = SendSummaryHelpMessage {
        channel_id: "ch".to_string(),
        commands: vec![
            CommandSummary { name: "reg".to_string(), description: "a".to_string() },
            CommandSummary { name: "bet".to_string(), description: "b".to_string() },
        ],
    }
    .into_new_message();
    assert!(!summary.embed);
    assert_eq!(summary.content, "### コマンド\n- reg (`a``)\n- bet (`b``)");
    let plain = SendMessage { channel_id: "ch".to_string(), content: "hi".to_string(), embed: true }.into_new_message();
    assert_eq!(plain.content, "hi");
    assert!(plain.embed);
}

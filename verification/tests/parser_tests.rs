use rshell::parser::parse;
use rshell::parser::parse_command;
use rshell::parser::Command;
use rshell::parser::InputRedirect;
use rshell::parser::OutputRedirect;

#[test]
fn test_parse_commands() {
    let result = parse("foo bar &");
    assert!(result.is_ok());

    assert_eq!(
        result,
        Ok(vec![Command {
            name: "foo".to_string(),
            pipe: false,
            background: true,
            input_file: None,
            output_file: None,
            parameters: vec!["bar".to_string()]
        }])
    );
}

#[test]
fn test_parse_command() {
    assert_eq!(
        parse_command("abc &"),
        Ok(Command {
            name: "abc".to_string(),
            pipe: false,
            background: true,
            input_file: None,
            output_file: None,
            parameters: vec![]
        })
    );

    assert_eq!(
        parse_command("abc&"),
        Ok(Command {
            name: "abc".to_string(),
            pipe: false,
            background: true,
            input_file: None,
            output_file: None,
            parameters: vec![]
        })
    );

    assert_eq!(
        parse_command("abc"),
        Ok(Command {
            name: "abc".to_string(),
            pipe: false,
            background: false,
            input_file: None,
            output_file: None,
            parameters: vec![]
        })
    );

    assert_eq!(
        parse_command("abc x y \"n m\" 's t'&"),
        Ok(Command {
            name: "abc".to_string(),
            pipe: false,
            background: true,
            input_file: None,
            output_file: None,
            parameters: vec![
                "x".to_string(),
                "y".to_string(),
                "n m".to_string(),
                "s t".to_string()
            ]
        })
    );

    // leading and trailing whitespace
    assert_eq!(
        parse_command("\tabc x y &   "),
        Ok(Command {
            name: "abc".to_string(),
            pipe: false,
            background: true,
            input_file: None,
            output_file: None,
            parameters: vec!["x".to_string(), "y".to_string()]
        })
    );
}

#[test]
fn test_parse_command_with_redirect() {
    assert_eq!(
        parse_command("abc < input"),
        Ok(Command {
            name: "abc".to_string(),
            pipe: false,
            background: false,
            input_file: Some(InputRedirect {
                filename: "input".to_string(),
                file_descriptor: 0
            }),
            output_file: None,
            parameters: vec![]
        })
    );

    assert_eq!(
        parse_command("abc > output"),
        Ok(Command {
            name: "abc".to_string(),
            pipe: false,
            background: false,
            input_file: None,
            output_file: Some(OutputRedirect {
                filename: "output".to_string(),
                append: false,
                file_descriptor: 1
            }),
            parameters: vec![]
        })
    );

    assert_eq!(
        parse_command("abc >> output"),
        Ok(Command {
            name: "abc".to_string(),
            pipe: false,
            background: false,
            input_file: None,
            output_file: Some(OutputRedirect {
                filename: "output".to_string(),
                append: true,
                file_descriptor: 1
            }),
            parameters: vec![]
        })
    );

    assert_eq!(
        parse_command("abc 2> erroroutput"),
        Ok(Command {
            name: "abc".to_string(),
            pipe: false,
            background: false,
            input_file: None,
            output_file: Some(OutputRedirect {
                filename: "erroroutput".to_string(),
                append: false,
                file_descriptor: 2
            }),
            parameters: vec![]
        })
    );

    assert_eq!(
        parse_command("abc > output &"),
        Ok(Command {
            name: "abc".to_string(),
            pipe: false,
            background: true,
            input_file: None,
            output_file: Some(OutputRedirect {
                filename: "output".to_string(),
                append: false,
                file_descriptor: 1
            }),
            parameters: vec![]
        })
    );

    assert_eq!(
        parse_command("abc < input > output"),
        Ok(Command {
            name: "abc".to_string(),
            pipe: false,
            background: false,
            input_file: Some(InputRedirect {
                filename: "input".to_string(),
                file_descriptor: 0
            }),
            output_file: Some(OutputRedirect {
                filename: "output".to_string(),
                append: false,
                file_descriptor: 1
            }),
            parameters: vec![]
        })
    );
}

#[test]
fn test_parse_quoted_double_quote() {
    assert_eq!(
        parse_command("a\\\"bc \"x y\""),
        Ok(Command {
            name: "a\\\"bc".to_string(),
            pipe: false,
            background: false,
            input_file: None,
            output_file: None,
            parameters: vec!["x y".to_string()]
        })
    );

    assert_eq!(
        parse_command("cmd a\\\"b"),
        Ok(Command {
            name: "cmd".to_string(),
            pipe: false,
            background: false,
            input_file: None,
            output_file: None,
            parameters: vec!["a\\\"b".to_string()]
        })
    );
}

#[test]
fn test_empty_line_is_error() {
    assert!(parse("").is_err());
    assert!(parse("   ").is_err());
}

#[test]
fn test_stray_unmatched_quote_is_error() {
    let e = parse("abc \"x y").unwrap_err();
    assert_eq!(e.position, 4);
    assert_eq!(e.remainder, "\"x y".to_string());

    assert!(parse("abc 'oops").is_err());
}

#[test]
fn test_trailing_garbage_is_error() {
    assert!(parse("abc & x").is_err());
    assert!(parse("abc &&").is_err());
    assert!(parse("abc !").is_err());
}

#[test]
fn test_redirect_missing_filename_is_error() {
    assert!(parse("abc <").is_err());
    assert!(parse("abc >").is_err());
    assert!(parse("abc 2>").is_err());
    assert!(parse("abc < ").is_err());
}

#[test]
fn test_background_before_redirect_is_error() {
    // the grammar's fixed order: the marker may only come last
    assert!(parse("abc & > output").is_err());
    assert!(parse("abc > output < input").is_err());
}

#[test]
fn test_quotes_preserve_internal_whitespace() {
    let cmd = parse_command("abc \"a  b\"").unwrap();
    assert_eq!(cmd.parameters, vec!["a  b".to_string()]);

    let empty_quotes = parse_command("abc \"\"");
    assert!(empty_quotes.is_err());
}

#[test]
fn test_quotes_admit_unicode_content() {
    // anything alphanumeric or whitespace may stand between quotes
    let cmd = parse_command("abc \"caf\u{e9} x\"").unwrap();
    assert_eq!(cmd.parameters, vec!["caf\u{e9} x".to_string()]);

    // punctuation is still refused between quotes
    assert!(parse_command("abc \"a;b\"").is_err());
}

#[test]
fn test_parse_yields_single_stage_pipeline() {
    let pipeline = parse("ls l a &").unwrap();
    assert_eq!(pipeline.len(), 1);
    assert_eq!(pipeline[0].name, "ls".to_string());
    assert_eq!(
        pipeline[0].parameters,
        vec!["l".to_string(), "a".to_string()]
    );
    assert!(pipeline[0].background);
    assert!(!pipeline[0].pipe);
}

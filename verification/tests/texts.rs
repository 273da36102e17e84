use panopt::auth::{hex_token, no_token_message, read_token, token_in, token_step, TokenStep};
use panopt::error::CoreError;
use panopt::migrations::{column_missing, migration_plan, Step, SCHEMA_VERSION};
use panopt::paths::{file_name, join_path};
use panopt::text;

#[test]
fn white_space_is_that_of_the_standard_library() {
    for code in 0..=0x10ffffu32 {
        if let Some(c) = char::from_u32(code) {
            assert_eq!(text::is_white(c), c.is_whitespace(), "U+{code:04X}");
        }
    }
}

#[test]
fn texts_are_taken_apart_like_the_standard_library_does() {
    for s in ["", " a ", "a,b,,c", "\u{85}x\u{2003}", "a\r\nb\n\nc\r", "é·é · x", ",", "a,"] {
        assert_eq!(text::trim(s), s.trim());
        assert_eq!(text::trim_start(s), s.trim_start());
        assert_eq!(text::trim_end(s), s.trim_end());
        assert_eq!(text::split(s, ","), s.split(",").collect::<Vec<_>>());
        assert_eq!(text::split(s, " · "), s.split(" · ").collect::<Vec<_>>());
        assert_eq!(text::lines(s), s.lines().collect::<Vec<_>>());
        assert_eq!(
            text::split_words(s),
            s.split_whitespace().collect::<Vec<_>>()
        );
        assert_eq!(text::split_once(s, ","), s.split_once(","));
        assert_eq!(text::replace(s, ",", "::"), s.replace(",", "::"));
        assert_eq!(text::contains(s, "é"), s.contains("é"));
        assert_eq!(text::strip_prefix(s, "a"), s.strip_prefix("a"));
        assert_eq!(text::strip_suffix(s, "c\r"), s.strip_suffix("c\r"));
    }
}

#[test]
fn numbers_are_read_like_the_standard_library_does() {
    for s in [
        "", "0", "007", "+5", "-1", "18446744073709551615", "18446744073709551616", " 1", "1 ",
        "1a", "+", "++1", "٣",
    ] {
        assert_eq!(text::parse_u64(s), s.parse::<u64>().ok(), "{s}");
        assert_eq!(text::parse_u32(s), s.parse::<u32>().ok(), "{s}");
    }
    assert_eq!(text::number(u64::MAX), "18446744073709551615");
    assert_eq!(text::signed_number(i64::MIN), "-9223372036854775808");
    assert_eq!(text::signed_number(-7), "-7");
}

#[test]
fn a_token_is_what_its_file_holds() {
    assert_eq!(token_in("  abc\n").as_deref(), Some("abc"));
    assert_eq!(token_in(" \n"), None);
    assert_eq!(hex_token(&vec![0, 15, 160, 255]), "000fa0ff");
    let made = hex_token(&vec![7; 32]);
    assert_eq!(made.len(), 64);
    assert_eq!(token_in(&made).as_deref(), Some(made.as_str()));
    assert!(no_token_message("/data/token").contains("/data/token"));
}

#[test]
fn read_token_errors_when_missing() {
    let err = read_token("/data/nope", None).unwrap_err();
    assert_eq!(
        err,
        "no panopt token at /data/nope - start the daemon (`panopt up`) so it generates one"
    );
    assert!(read_token("/data/blank", Some("\n")).is_err());
    assert_eq!(read_token("/data/token", Some("abc\n")).unwrap(), "abc");
}

#[test]
fn a_blank_token_file_is_replaced() {
    assert!(matches!(token_step(None), TokenStep::Create));
    assert!(matches!(token_step(Some("")), TokenStep::Replace));
    assert!(matches!(token_step(Some(" \n")), TokenStep::Replace));
    assert!(matches!(token_step(Some("abc\n")), TokenStep::Use(t) if t == "abc"));
}

#[test]
fn databases_are_brought_up_step_by_step() {
    assert_eq!(SCHEMA_VERSION, 9);
    assert!(migration_plan(9).is_empty());
    assert!(matches!(
        migration_plan(7).as_slice(),
        [Step::Schema(8), Step::Schema(9), Step::Stamp]
    ));
    let fresh = migration_plan(0);
    assert_eq!(fresh.len(), 10);
    assert!(matches!(fresh[0], Step::Schema(1)));
    assert!(matches!(migration_plan(12).as_slice(), [Step::Stamp]));
    let columns = vec!["id".to_string(), "tags".to_string()];
    assert!(!column_missing(&columns, "tags"));
    assert!(column_missing(&columns, "tag"));
}

#[test]
fn paths_are_put_together() {
    assert_eq!(join_path("/run/9", "cfg"), "/run/9/cfg");
    for p in ["/a/b", "/a/b/", "a", "/", "", "/a/..", "/a/./", "a//", "."] {
        assert_eq!(
            file_name(p),
            std::path::Path::new(p).file_name().map(|n| n.to_str().unwrap()),
            "{p}"
        );
    }
}

#[test]
fn errors_say_what_is_wrong() {
    assert_eq!(CoreError::NoteNotFound(3).message(), "note 3 not found");
    assert_eq!(
        CoreError::ScratchpadNotFound(3).message(),
        "scratchpad 3 not found"
    );
    assert_eq!(
        CoreError::RosterNotFound(3).message(),
        "roster entry 3 not found"
    );
    assert_eq!(CoreError::TodoNotFound(3).message(), "todo 3 not found");
    assert_eq!(
        CoreError::TodoCommentNotFound {
            todo_id: 3,
            comment_id: 4
        }
        .message(),
        "comment 4 not found on todo 3"
    );
    assert_eq!(
        CoreError::AgentToolNotFound(5).message(),
        "agent tool 5 not found"
    );
    assert_eq!(CoreError::ProcessNotFound(6).message(), "process 6 not found");
    assert_eq!(
        CoreError::UnknownToolType("x".into()).message(),
        "unknown agent type 'x'"
    );
    assert_eq!(CoreError::BadRequest("no".into()).message(), "no");
    assert_eq!(CoreError::ProjectNotFound(-2).message(), "project -2 not found");
    assert_eq!(
        CoreError::Workspace("/gone".into()).message(),
        "workspace path not found or inaccessible: /gone"
    );
}

use moon_embed::{run_embed, run_embed_bin, run_embed_text, Embed, EmbedError, Mode};
use std::path::PathBuf;

fn request(binary: bool, text: bool, name: Option<&str>, timestamp: bool) -> Embed {
    Embed::new(
        binary,
        text,
        PathBuf::from("in.dat"),
        PathBuf::from("out.mbt"),
        name.map(|n| n.to_string()),
        timestamp,
    )
    .unwrap()
}

/// Whether `s` is a time stamp such as `2024-05-17 09:30:00`.
fn is_stamp(s: &str) -> bool {
    let b = s.as_bytes();
    if b.len() < 19 {
        return false;
    }
    let (year, rest) = b.split_at(b.len() - 15);
    let year_ok = if year.len() == 4 {
        year.iter().all(|c| c.is_ascii_digit())
    } else {
        year.len() >= 6 && year[0] == b'+' && year[1..].iter().all(|c| c.is_ascii_digit())
    };
    let marks = [(0usize, b'-'), (3, b'-'), (6, b' '), (9, b':'), (12, b':')];
    year_ok
        && rest.iter().enumerate().all(|(i, c)| match marks.iter().find(|(at, _)| *at == i) {
            Some((_, mark)) => c == mark,
            None => c.is_ascii_digit(),
        })
}

#[test]
fn asking_for_both_modes_is_turned_down() {
    let r = Embed::new(true, true, PathBuf::from("a"), PathBuf::from("b"), None, false);
    assert!(matches!(r, Err(EmbedError::ConflictingModes)));
    let r = Embed::new(
        true,
        true,
        PathBuf::from("a"),
        PathBuf::from("b"),
        Some("x".to_string()),
        true,
    );
    assert!(matches!(r, Err(EmbedError::ConflictingModes)));
}

#[test]
fn neither_flag_means_text() {
    assert_eq!(request(false, false, None, false).mode(), Mode::Text);
}

#[test]
fn each_flag_selects_its_mode() {
    assert_eq!(request(false, true, None, false).mode(), Mode::Text);
    assert_eq!(request(true, false, None, false).mode(), Mode::Binary);
}

#[test]
fn a_request_keeps_what_it_was_given() {
    let cmd = Embed::new(
        true,
        false,
        PathBuf::from("assets/logo.png"),
        PathBuf::from("gen/logo.mbt"),
        Some("logo".to_string()),
        true,
    )
    .unwrap();
    assert_eq!(cmd.mode(), Mode::Binary);
    assert_eq!(cmd.input(), &PathBuf::from("assets/logo.png"));
    assert_eq!(cmd.output(), &PathBuf::from("gen/logo.mbt"));
    assert_eq!(cmd.name(), Some("logo"));
    assert_eq!(cmd.identifier(), "logo");
    assert!(cmd.timestamp());
}

#[test]
fn the_name_defaults_to_resource() {
    let cmd = request(false, false, None, false);
    assert_eq!(cmd.name(), None);
    assert_eq!(cmd.identifier(), "resource");
    assert!(!cmd.timestamp());
}

#[test]
fn run_in_text_mode_gives_the_string_declaration() {
    let cmd = request(false, true, None, false);
    assert_eq!(
        run_embed(&cmd, b"a\nb\n"),
        Ok("// Generated by `moon tool embed --text`, do not edit.\n\n///|\nlet resource : String =\n  #|a\n  #|b\n  #|\n".to_string())
    );
}

#[test]
fn run_in_binary_mode_gives_the_bytes_declaration() {
    let cmd = request(true, false, Some("blob"), false);
    assert_eq!(
        run_embed(&cmd, &[0xde, 0xad, 0xbe, 0xef]),
        Ok("// Generated by `moon tool embed --binary`, do not edit.\n\n///|\nlet blob : Bytes = Bytes::of([\n  0xde, 0xad, 0xbe, 0xef, \n])\n".to_string())
    );
}

#[test]
fn run_without_flags_embeds_as_text() {
    let cmd = request(false, false, Some("t"), false);
    assert_eq!(
        run_embed(&cmd, b"x"),
        Ok("// Generated by `moon tool embed --text`, do not edit.\n\n///|\nlet t : String =\n  #|x\n".to_string())
    );
}

#[test]
fn text_that_is_not_utf8_is_a_read_failure() {
    let cmd = request(false, true, None, false);
    assert_eq!(run_embed(&cmd, &[b'a', 0xff, b'b']), Err(EmbedError::ReadFailure));
    assert_eq!(run_embed_text(&cmd, &[0xc3]), Err(EmbedError::ReadFailure));
    assert_eq!(run_embed_text(&cmd, &[0xed, 0xa0, 0x80]), Err(EmbedError::ReadFailure));
}

#[test]
fn text_that_is_not_utf8_fails_with_a_time_stamp_too() {
    let cmd = request(false, true, None, true);
    assert_eq!(run_embed(&cmd, &[0x80]), Err(EmbedError::ReadFailure));
}

#[test]
fn binary_mode_takes_bytes_that_are_not_utf8() {
    let cmd = request(true, false, None, false);
    assert_eq!(
        run_embed(&cmd, &[0xff, 0xfe]),
        Ok("// Generated by `moon tool embed --binary`, do not edit.\n\n///|\nlet resource : Bytes = Bytes::of([\n  0xff, 0xfe, \n])\n".to_string())
    );
}

#[test]
fn text_mode_decodes_utf8() {
    let cmd = request(false, true, None, false);
    let payload = "héllo\n日本語".as_bytes();
    assert_eq!(
        run_embed(&cmd, payload),
        Ok("// Generated by `moon tool embed --text`, do not edit.\n\n///|\nlet resource : String =\n  #|héllo\n  #|日本語\n".to_string())
    );
}

#[test]
fn an_empty_payload_is_served_in_both_modes() {
    assert_eq!(
        run_embed(&request(false, true, None, false), &[]),
        Ok("// Generated by `moon tool embed --text`, do not edit.\n\n///|\nlet resource : String =\n  #|\n".to_string())
    );
    assert_eq!(
        run_embed(&request(true, false, None, false), &[]),
        Ok("// Generated by `moon tool embed --binary`, do not edit.\n\n///|\nlet resource : Bytes = Bytes::of([\n\n])\n".to_string())
    );
}

#[test]
fn run_embed_text_and_run_embed_bin_do_not_look_at_the_mode() {
    let as_binary = request(true, false, None, false);
    assert_eq!(
        run_embed_text(&as_binary, b"hi"),
        Ok("// Generated by `moon tool embed --text`, do not edit.\n\n///|\nlet resource : String =\n  #|hi\n".to_string())
    );
    let as_text = request(false, true, None, false);
    assert_eq!(
        run_embed_bin(&as_text, b"hi"),
        "// Generated by `moon tool embed --binary`, do not edit.\n\n///|\nlet resource : Bytes = Bytes::of([\n  0x68, 0x69, \n])\n"
    );
}

#[test]
fn two_runs_without_time_stamp_give_the_same() {
    let payload: Vec<u8> = (0u8..100).collect();
    let first = request(true, false, Some("blob"), false);
    let second = Embed::new(
        true,
        false,
        PathBuf::from("elsewhere/in"),
        PathBuf::from("elsewhere/out"),
        Some("blob".to_string()),
        false,
    )
    .unwrap();
    assert_eq!(run_embed(&first, &payload), run_embed(&first, &payload));
    assert_eq!(run_embed(&first, &payload), run_embed(&second, &payload));
    let text = request(false, true, None, false);
    assert_eq!(run_embed(&text, b"a\nb"), run_embed(&text, b"a\nb"));
}

#[test]
fn a_run_with_time_stamp_shows_the_time_in_the_header() {
    let cmd = request(false, true, None, true);
    let out = run_embed(&cmd, b"hi").unwrap();
    let rest = out.strip_prefix("// Generated by `moon tool embed --text` on ").unwrap();
    let (stamp, rest) = rest.split_once(", do not edit.").unwrap();
    assert!(is_stamp(stamp));
    assert_eq!(rest, "\n\n///|\nlet resource : String =\n  #|hi\n");
}

#[test]
fn a_binary_run_with_time_stamp_shows_the_time_in_the_header() {
    let cmd = request(true, false, Some("blob"), true);
    let out = run_embed_bin(&cmd, &[7]);
    let rest = out.strip_prefix("// Generated by `moon tool embed --binary` on ").unwrap();
    let (stamp, rest) = rest.split_once(", do not edit.").unwrap();
    assert!(is_stamp(stamp));
    assert_eq!(rest, "\n\n///|\nlet blob : Bytes = Bytes::of([\n  0x07, \n])\n");
}

#[test]
fn the_time_stamp_of_this_century_has_nineteen_characters() {
    let cmd = request(true, false, None, true);
    let out = run_embed_bin(&cmd, &[]);
    let rest = out.strip_prefix("// Generated by `moon tool embed --binary` on ").unwrap();
    let (stamp, _) = rest.split_once(", do not edit.").unwrap();
    assert_eq!(stamp.len(), 19);
    assert!(stamp.starts_with("20"));
}

#[test]
fn errors_say_what_went_wrong() {
    assert_eq!(
        EmbedError::ConflictingModes.message(),
        "the argument '--binary' cannot be used with '--text'"
    );
    assert_eq!(EmbedError::ReadFailure.message(), "stream did not contain valid UTF-8");
}

use krillin_rs::media::{
    mono_audio_file_name, parse_resolution, parse_u32_text, process_audio_args, replace_audio_args,
    IntErrorKind, ResolutionError,
};

#[test]
fn reads_resolution() {
    assert_eq!(parse_resolution("1920x1080\n"), Ok((1920, 1080)));
    assert_eq!(parse_resolution("  640x480 "), Ok((640, 480)));
}

#[test]
fn resolution_errors() {
    assert_eq!(parse_resolution("1920"), Err(ResolutionError::NotTwoParts));
    assert_eq!(parse_resolution("1x2x3"), Err(ResolutionError::NotTwoParts));
    assert_eq!(parse_resolution(""), Err(ResolutionError::NotTwoParts));
    let digit = Err(ResolutionError::Number(IntErrorKind::InvalidDigit));
    assert_eq!(parse_resolution("wide x 2"), digit);
    assert_eq!(parse_resolution("1920 x1080"), digit);
    assert_eq!(
        parse_resolution("99999999999x1"),
        Err(ResolutionError::Number(IntErrorKind::PosOverflow))
    );
    assert_eq!(parse_resolution("x1080"), Err(ResolutionError::Number(IntErrorKind::Empty)));
    assert_eq!(parse_resolution("1920x"), Err(ResolutionError::Number(IntErrorKind::Empty)));
    // The width is read first.
    assert_eq!(parse_resolution("1a2x"), digit);
}

#[test]
fn u32_parsing_matches_std() {
    for text in [
        "0", "42", "+7", "+", "-1", "", "4294967295", "4294967296", "12a", "00012",
        "99999999999a", "9999a99999999", "+-3",
    ] {
        let expected = text.parse::<u32>();
        let got = parse_u32_text(&text.chars().collect());
        match (&got, &expected) {
            (Ok(a), Ok(b)) => assert_eq!(a, b, "{text:?}"),
            (Err(k), Err(e)) => assert_eq!(k.message(), e.to_string(), "{text:?}"),
            _ => panic!("{text:?}: {got:?} vs {expected:?}"),
        }
    }
}

#[test]
fn mono_audio_name() {
    assert_eq!(mono_audio_file_name("talk"), "talk_mono_16K.mp3");
}

#[test]
fn audio_conversion_command() {
    assert_eq!(
        process_audio_args("in.wav", "in_mono_16K.mp3"),
        vec!["-y", "-i", "in.wav", "-ac", "1", "-ar", "16000", "-b:a", "192k", "in_mono_16K.mp3"]
    );
}

#[test]
fn audio_replacement_command() {
    assert_eq!(
        replace_audio_args("v.mp4", "a.wav", "out.mp4"),
        vec![
            "-y", "-i", "v.mp4", "-i", "a.wav", "-c:v", "copy", "-map", "0:v:0", "-map", "1:a:0",
            "out.mp4",
        ]
    );
}

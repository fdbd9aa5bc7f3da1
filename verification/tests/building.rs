use muso::error::MusoError;
use muso::format::ParsedFormat;
use muso::metadata::Metadata;

fn complete(ext: &str) -> Metadata {
    Metadata {
        artist: Some("Album Artist".to_string()),
        album: Some("Album".to_string()),
        disc: Some(1),
        track: Some(1),
        title: Some("Title".to_string()),
        ext: ext.to_string(),
    }
}

fn partial(ext: &str) -> Metadata {
    Metadata {
        artist: Some("Artist".to_string()),
        album: None,
        disc: Some(1),
        track: Some(1),
        title: Some("Title".to_string()),
        ext: ext.to_string(),
    }
}

#[test]
fn complete_with_ok_format() {
    let format = ParsedFormat::from_str("{artist}/{album}/{disc}.{track} - {title}.{ext}").unwrap();
    assert_eq!(
        Ok("Album Artist/Album/1.1 - Title.flac".to_string()),
        format.build_path(&complete("flac"), false)
    );
}

#[test]
fn partial_with_ok_format() {
    let format = ParsedFormat::from_str("{artist}/{disc}.{track} - {title}.{ext}").unwrap();
    assert_eq!(
        Ok("Artist/1.1 - Title.flac".to_string()),
        format.build_path(&partial("flac"), false)
    );
}

#[test]
fn both_with_ok_optional_format() {
    let format = ParsedFormat::from_str("{artist}/{album?} - {title}.{ext}").unwrap();
    assert_eq!(
        Ok("Artist/ - Title.flac".to_string()),
        format.build_path(&partial("flac"), false)
    );
    assert_eq!(
        Ok("Album Artist/Album - Title.flac".to_string()),
        format.build_path(&complete("flac"), false)
    );
}

#[test]
fn bad_optional_formats() {
    let format = ParsedFormat::from_str("{artist}/{album?}/{title}.{ext}").unwrap();
    assert_eq!(
        Err(MusoError::OptionalInDir),
        format.build_path(&partial("flac"), false)
    );

    let format = ParsedFormat::from_str("{artist}/{title?}.{ext}").unwrap();
    assert_eq!(
        Err(MusoError::RequiredInFile),
        format.build_path(&partial("flac"), false)
    );
}

#[test]
fn bad_file_format() {
    let format = ParsedFormat::from_str("{artist}/foo.{ext}").unwrap();
    assert_eq!(
        Err(MusoError::RequiredInFile),
        format.build_path(&partial("flac"), false)
    );
    // the same template fails on the complete record too: literal text
    // never counts as a placeholder
    assert_eq!(
        Err(MusoError::RequiredInFile),
        format.build_path(&complete("flac"), false)
    );
}

#[test]
fn partial_with_bad_format() {
    let format = ParsedFormat::from_str("{artist}/{album}").unwrap();
    assert_eq!(
        Err(MusoError::MissingTag { tag: "album".into() }),
        format.build_path(&partial("flac"), false)
    );
}

#[test]
fn required_in_file_whatever_the_metadata() {
    let format = ParsedFormat::from_str("{artist}/{title?}.{ext}").unwrap();
    assert_eq!(
        Err(MusoError::RequiredInFile),
        format.build_path(&complete("flac"), false)
    );
    assert_eq!(
        Err(MusoError::RequiredInFile),
        format.build_path(&partial("mp3"), false)
    );
}

#[test]
fn build_is_deterministic() {
    let format = ParsedFormat::from_str("{artist}/{album}/{disc}.{track} - {title}.{ext}").unwrap();
    let first = format.build_path(&complete("ogg"), true).unwrap();
    let second = format.build_path(&complete("ogg"), true).unwrap();
    assert_eq!(first, second);
    assert_eq!(first.as_bytes(), second.as_bytes());
}

#[test]
fn to_text_round_trips_the_source() {
    let source = "{artist}/{album}/{track:2?} - {title}.{ext}";
    let format = ParsedFormat::from_str(source).unwrap();
    assert_eq!(source, format.to_text());
    // the text is the source verbatim, so it compiles again
    assert!(ParsedFormat::from_str(format.to_text()).is_ok());
}

#[test]
fn literal_dir_segment_never_fails() {
    let format = ParsedFormat::from_str("incoming/{title}.{ext}").unwrap();
    let bare = Metadata {
        artist: None,
        album: None,
        disc: None,
        track: None,
        title: Some("Title".to_string()),
        ext: "flac".to_string(),
    };
    assert_eq!(Ok("incoming/Title.flac".to_string()), format.build_path(&bare, false));
}

#[test]
fn leading_zero_rendering() {
    assert_eq!("01", ParsedFormat::add_leading_zeros("1".to_string(), 2));
    assert_eq!("1", ParsedFormat::add_leading_zeros("1".to_string(), 0));
    assert_eq!("123", ParsedFormat::add_leading_zeros("123".to_string(), 2));
    assert_eq!("123", ParsedFormat::add_leading_zeros("123".to_string(), 3));
    assert_eq!("0007", ParsedFormat::add_leading_zeros("7".to_string(), 4));

    let format = ParsedFormat::from_str("{track:2} - {title}.{ext}").unwrap();
    let md = Metadata {
        artist: None,
        album: None,
        disc: None,
        track: Some(1),
        title: Some("Title".to_string()),
        ext: "mp3".to_string(),
    };
    assert_eq!(Ok("01 - Title.mp3".to_string()), format.build_path(&md, false));
}

#[test]
fn exfat_compat_rewrites_only_under_the_flag() {
    assert_eq!("a_b", ParsedFormat::replace("a:b".to_string(), true));
    assert_eq!("a:b", ParsedFormat::replace("a:b".to_string(), false));
    assert_eq!("a_b", ParsedFormat::replace("a/b".to_string(), true));
    assert_eq!("a_b", ParsedFormat::replace("a/b".to_string(), false));
    assert_eq!("________x", ParsedFormat::replace("/\"*:<>\\?x".to_string(), true).as_str());

    let format = ParsedFormat::from_str("{artist}/{title}.{ext}").unwrap();
    let md = Metadata {
        artist: Some("AC: DC".to_string()),
        album: None,
        disc: None,
        track: None,
        title: Some("T/N".to_string()),
        ext: "flac".to_string(),
    };
    assert_eq!(Ok("AC_ DC/T_N.flac".to_string()), format.build_path(&md, true));
    assert_eq!(Ok("AC: DC/T_N.flac".to_string()), format.build_path(&md, false));
}

#[test]
fn consecutive_slashes_keep_an_empty_directory_level() {
    let format = ParsedFormat::from_str("a//{title}.{ext}").unwrap();
    let md = Metadata {
        artist: None,
        album: None,
        disc: None,
        track: None,
        title: Some("Title".to_string()),
        ext: "flac".to_string(),
    };
    assert_eq!(Ok("a//Title.flac".to_string()), format.build_path(&md, false));
}

#[test]
fn trailing_slash_leaves_no_file_segment() {
    // with nothing after the final slash there is no file segment, so no
    // required-placeholder check either
    let format = ParsedFormat::from_str("{artist}/").unwrap();
    let md = Metadata {
        artist: Some("Artist".to_string()),
        album: None,
        disc: None,
        track: None,
        title: None,
        ext: "flac".to_string(),
    };
    assert_eq!(Ok("Artist/".to_string()), format.build_path(&md, false));
}

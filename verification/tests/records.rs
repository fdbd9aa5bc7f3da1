use muso::error::MusoError;
use muso::metadata::Metadata;
use muso::strutil::{parse_u32, u32_to_string};

fn comments(pairs: &[(&str, &str)]) -> Vec<(String, String)> {
    pairs.iter().map(|(k, v)| (k.to_string(), v.to_string())).collect()
}

#[test]
fn getters_report_missing_tags() {
    let md = Metadata {
        artist: Some("Artist".to_string()),
        album: None,
        disc: Some(1),
        track: Some(1),
        title: Some("Title".to_string()),
        ext: "flac".to_string(),
    };
    assert_eq!(Ok("Artist".to_string()), md.get_artist());
    assert_eq!(Err(MusoError::MissingTag { tag: "album".into() }), md.get_album());
    assert_eq!(Ok("1".to_string()), md.get_disc());
    assert_eq!(Ok("1".to_string()), md.get_track());
    assert_eq!(Ok("Title".to_string()), md.get_title());
    assert_eq!("flac".to_string(), md.get_ext());
}

#[test]
fn numbers_render_in_decimal() {
    let md = Metadata {
        artist: None,
        album: None,
        disc: Some(10),
        track: Some(205),
        title: None,
        ext: "mp3".to_string(),
    };
    assert_eq!(Ok("10".to_string()), md.get_disc());
    assert_eq!(Ok("205".to_string()), md.get_track());
    assert_eq!("0", u32_to_string(0));
    assert_eq!("4294967295", u32_to_string(u32::MAX));
}

#[test]
fn vorbis_comments_become_a_record() {
    let grouped = Metadata::ogg_comment_map(comments(&[
        ("ARTIST", "Artist"),
        ("ALBUM", "Album"),
        ("DISCNUMBER", "1"),
        ("TRACKNUMBER", "12"),
        ("TITLE", "Title"),
    ]));
    let md = Metadata::from_vorbis_comments(grouped, "ogg").unwrap();
    assert_eq!(md.artist, Some("Artist".to_string()));
    assert_eq!(md.album, Some("Album".to_string()));
    assert_eq!(md.disc, Some(1));
    assert_eq!(md.track, Some(12));
    assert_eq!(md.title, Some("Title".to_string()));
    assert_eq!(md.ext, "ogg");
}

#[test]
fn album_artist_wins_over_artist() {
    let grouped = Metadata::ogg_comment_map(comments(&[
        ("ARTIST", "Someone"),
        ("ALBUMARTIST", "Album Artist"),
    ]));
    let md = Metadata::from_vorbis_comments(grouped, "ogg").unwrap();
    assert_eq!(md.artist, Some("Album Artist".to_string()));
}

#[test]
fn repeated_keys_keep_their_first_value() {
    let grouped = Metadata::ogg_comment_map(comments(&[
        ("ARTIST", "First"),
        ("ARTIST", "Second"),
    ]));
    assert_eq!(grouped.len(), 1);
    assert_eq!(grouped[0].0, "ARTIST");
    assert_eq!(grouped[0].1, vec!["First".to_string(), "Second".to_string()]);

    let md = Metadata::from_vorbis_comments(grouped, "ogg").unwrap();
    assert_eq!(md.artist, Some("First".to_string()));
}

#[test]
fn unparsable_numbers_are_dropped() {
    let grouped = Metadata::ogg_comment_map(comments(&[
        ("DISCNUMBER", "one"),
        ("TRACKNUMBER", "4294967296"),
    ]));
    let md = Metadata::from_vorbis_comments(grouped, "ogg").unwrap();
    assert_eq!(md.disc, None);
    assert_eq!(md.track, None);
}

#[test]
fn number_parsing_follows_the_standard_rules() {
    assert_eq!(parse_u32("0"), Some(0));
    assert_eq!(parse_u32("12"), Some(12));
    assert_eq!(parse_u32("+7"), Some(7));
    assert_eq!(parse_u32("007"), Some(7));
    assert_eq!(parse_u32("4294967295"), Some(u32::MAX));
    assert_eq!(parse_u32("4294967296"), None);
    assert_eq!(parse_u32(""), None);
    assert_eq!(parse_u32("+"), None);
    assert_eq!(parse_u32("-1"), None);
    assert_eq!(parse_u32("1a"), None);
    assert_eq!(parse_u32(" 1"), None);
}

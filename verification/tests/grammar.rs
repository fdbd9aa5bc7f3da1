use muso::error::MusoError;
use muso::format::ParsedFormat;
use muso::parser::{component, components, placeholder, tag_complete, tag_leading};
use muso::parser::{BasicComponent, Placeholder, Tag};

#[test]
fn parser_tag_leading_parse() {
    assert_eq!(tag_leading(":2"), Ok(("", 2)));
    assert_eq!(tag_leading("a:2"), Ok(("a:2", 0)));
    assert_eq!(tag_leading("?}"), Ok(("?}", 0)));
    assert_eq!(tag_leading(":2?}"), Ok(("?}", 2)));
}

#[test]
fn parser_tag_complete_parse() {
    assert_eq!(tag_complete("artist"), Ok(("", Tag::Artist)));
    assert_eq!(tag_complete("disc:2"), Ok(("", Tag::Disc { leading: 2 })));
    assert_eq!(tag_complete("track:3?}"), Ok(("?}", Tag::Track { leading: 3 })));
    assert_eq!(tag_complete("disk"), Ok(("", Tag::Disc { leading: 0 })));
}

#[test]
fn parser_placeholder_parse() {
    assert_eq!(placeholder("artist?"), Ok(("", Placeholder::Optional(Tag::Artist))));
    assert_eq!(placeholder("album}"), Ok(("}", Placeholder::Required(Tag::Album))));
    assert_eq!(
        placeholder("disc:2?"),
        Ok(("", Placeholder::Optional(Tag::Disc { leading: 2 })))
    );
    assert_eq!(
        placeholder("track?}"),
        Ok(("}", Placeholder::Optional(Tag::Track { leading: 0 })))
    );
}

#[test]
fn parser_component_parse() {
    assert_eq!(component("foo"), Ok(("", BasicComponent::Literal("foo".into()))));
    assert_eq!(
        component("foo{artist?}"),
        Ok(("{artist?}", BasicComponent::Literal("foo".into())))
    );
    assert_eq!(
        component("{artist}"),
        Ok(("", BasicComponent::Placeholder(Placeholder::Required(Tag::Artist))))
    );
    assert_eq!(
        component("{track:2}"),
        Ok((
            "",
            BasicComponent::Placeholder(Placeholder::Required(Tag::Track { leading: 2 }))
        ))
    );
}

#[test]
fn parser_components_parse() {
    let expected = vec![
        BasicComponent::Placeholder(Placeholder::Required(Tag::Artist)),
        BasicComponent::Literal("/".into()),
        BasicComponent::Placeholder(Placeholder::Required(Tag::Album)),
        BasicComponent::Literal("/".into()),
        BasicComponent::Placeholder(Placeholder::Optional(Tag::Track { leading: 2 })),
        BasicComponent::Literal(" - ".into()),
        BasicComponent::Placeholder(Placeholder::Required(Tag::Title)),
        BasicComponent::Literal(".".into()),
        BasicComponent::Placeholder(Placeholder::Required(Tag::Ext)),
    ];

    let parsed = components("{artist}/{album}/{track:2?} - {title}.{ext}");

    assert_eq!(parsed, Ok(("", expected)));
}

#[test]
fn parser_without_placeholders() {
    let expected = vec![BasicComponent::Literal("hello world".into())];

    let parsed = components("hello world");
    assert_eq!(parsed, Ok(("", expected)));
}

#[test]
fn format_tag_leading_parse() {
    assert_eq!(tag_leading(":2"), Ok(("", 2)));
    assert_eq!(tag_leading("a:2"), Ok(("a:2", 0)));
    assert_eq!(tag_leading("?}"), Ok(("?}", 0)));
    assert_eq!(tag_leading(":2?}"), Ok(("?}", 2)));
}

#[test]
fn format_tag_complete_parse() {
    assert_eq!(tag_complete("artist"), Ok(("", Tag::Artist)));
    assert_eq!(tag_complete("disc:2"), Ok(("", Tag::Disc { leading: 2 })));
    assert_eq!(tag_complete("track:3?}"), Ok(("?}", Tag::Track { leading: 3 })));
    assert_eq!(tag_complete("disk"), Ok(("", Tag::Disc { leading: 0 })));
}

#[test]
fn format_placeholder_parse() {
    assert_eq!(placeholder("artist?"), Ok(("", Placeholder::Optional(Tag::Artist))));
    assert_eq!(placeholder("album}"), Ok(("}", Placeholder::Required(Tag::Album))));
    assert_eq!(
        placeholder("disc:2?"),
        Ok(("", Placeholder::Optional(Tag::Disc { leading: 2 })))
    );
    assert_eq!(
        placeholder("track?}"),
        Ok(("}", Placeholder::Optional(Tag::Track { leading: 0 })))
    );
}

#[test]
fn format_component_parse() {
    assert_eq!(component("foo"), Ok(("", BasicComponent::Literal("foo".into()))));
    assert_eq!(
        component("foo{artist?}"),
        Ok(("{artist?}", BasicComponent::Literal("foo".into())))
    );
    assert_eq!(
        component("{artist}"),
        Ok(("", BasicComponent::Placeholder(Placeholder::Required(Tag::Artist))))
    );
    assert_eq!(
        component("{track:2}"),
        Ok((
            "",
            BasicComponent::Placeholder(Placeholder::Required(Tag::Track { leading: 2 }))
        ))
    );
}

#[test]
fn format_components_parse() {
    let expected = vec![
        BasicComponent::Placeholder(Placeholder::Required(Tag::Artist)),
        BasicComponent::Literal("/".into()),
        BasicComponent::Placeholder(Placeholder::Required(Tag::Album)),
        BasicComponent::Literal("/".into()),
        BasicComponent::Placeholder(Placeholder::Optional(Tag::Track { leading: 2 })),
        BasicComponent::Literal(" - ".into()),
        BasicComponent::Placeholder(Placeholder::Required(Tag::Title)),
        BasicComponent::Literal(".".into()),
        BasicComponent::Placeholder(Placeholder::Required(Tag::Ext)),
    ];

    let parsed = components("{artist}/{album}/{track:2?} - {title}.{ext}");

    assert_eq!(parsed, Ok(("", expected)));
}

#[test]
fn format_without_placeholders() {
    let expected = vec![BasicComponent::Literal("hello world".into())];

    let parsed = components("hello world");
    assert_eq!(parsed, Ok(("", expected)));
}

#[test]
fn malformed_format_strings_are_refused() {
    assert!(matches!(ParsedFormat::from_str(""), Err(MusoError::FailedToParse)));
    assert!(matches!(ParsedFormat::from_str("{bogus}"), Err(MusoError::FailedToParse)));
    assert!(matches!(ParsedFormat::from_str("{artist"), Err(MusoError::FailedToParse)));
    assert!(matches!(ParsedFormat::from_str("{ext?}"), Err(MusoError::FailedToParse)));
    assert!(matches!(
        ParsedFormat::from_str("{track:256}"),
        Err(MusoError::FailedToParse)
    ));
    assert!(matches!(ParsedFormat::from_str("{track:}"), Err(MusoError::FailedToParse)));
}

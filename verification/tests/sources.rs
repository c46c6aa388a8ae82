use gedcom::diagnostic::{Anomaly, Scope};
use gedcom::parser::Parser;
use gedcom::token::{Token, TokenKind};
use gedcom::types::address::Address;
use gedcom::types::event::{Event, EventType, RepoCitation};
use gedcom::types::source::{Repository, Source, Submitter};

fn some(value: &str) -> Option<String> {
    Some(value.to_string())
}

/// A parser that stands on the tag of the first line of `text`.
fn on_first_tag(text: &str) -> Parser {
    let mut parser = Parser::new(text.chars());
    parser.advance();
    if parser.kind() == TokenKind::Pointer {
        parser.advance();
    }
    parser
}

#[test]
fn a_source_has_its_parts() {
    let mut parser = on_first_tag(
        "0 @S1@ SOUR\n1 DATA\n2 EVEN BIRT, DEAT\n3 DATE FROM 1900 TO 1950\n3 PLAC Utrecht\n\
         2 AGNC The Archive\n1 ABBR Short\n2 CONC name\n1 TITL A long\n2 CONT title\n\
         1 REPO @R1@\n2 CALN 12\n1 AUTH Somebody\n2 CONT else\n1 REPO @R2@\n0 TRLR",
    );
    let source = parser.parse_source(0, some("S1"));
    assert_eq!(source.xref, some("S1"));
    assert_eq!(source.data.events.len(), 1);
    let recorded = &source.data.events[0];
    assert_eq!(recorded.event, EventType::SourceData("BIRT, DEAT".to_string()));
    assert_eq!(recorded.date, some("FROM 1900 TO 1950"));
    assert_eq!(recorded.place, some("Utrecht"));
    assert_eq!(source.data.agency, some("The Archive"));
    assert_eq!(source.abbreviation, some("Short name"));
    assert_eq!(source.title, some("A long\ntitle"));
    assert_eq!(
        source.repo_citations,
        vec![
            RepoCitation { xref: "@R1@".to_string(), call_number: some("12") },
            RepoCitation { xref: "@R2@".to_string(), call_number: None },
        ]
    );
    assert_eq!(parser.kind(), TokenKind::Level(0));
    assert_eq!(parser.line(), 16);
    let reports = parser.diagnostics();
    assert_eq!(reports.len(), 1);
    assert_eq!(reports[0].scope, Scope::Source);
    assert_eq!(reports[0].anomaly, Anomaly::UnhandledTag);
    assert_eq!(reports[0].found, Token::Tag("AUTH".to_string()));
    assert_eq!(reports[0].line, 13);
}

#[test]
fn a_value_on_the_line_of_a_source_is_reported() {
    let mut parser = on_first_tag("0 @S1@ SOUR a text\n1 TITL Title\n0 TRLR");
    let source = parser.parse_source(0, None);
    assert_eq!(source.title, None);
    assert_eq!(source, Source::new(None));
    assert_eq!(parser.kind(), TokenKind::Level(0));
    assert_eq!(parser.diagnostics().len(), 1);
    assert_eq!(parser.diagnostics()[0].anomaly, Anomaly::UnhandledToken);
    assert_eq!(parser.diagnostics()[0].found, Token::LineValue("a text".to_string()));
}

#[test]
fn a_repository_has_its_name_and_address() {
    let mut parser = on_first_tag(
        "0 @R1@ REPO\n1 NAME The Library\n1 ADDR 1 Main Street\n2 CITY Springfield\n1 NOTE n\n0 TRLR",
    );
    let repository = parser.parse_repository(0, some("R1"));
    assert_eq!(
        repository,
        Repository {
            xref: some("R1"),
            name: some("The Library"),
            address: Some(Address {
                value: some("1 Main Street"),
                city: some("Springfield"),
                ..Address::default()
            }),
        }
    );
    assert_eq!(parser.kind(), TokenKind::Level(0));
    assert_eq!(parser.diagnostics().len(), 1);
    assert_eq!(parser.diagnostics()[0].scope, Scope::Repository);
}

#[test]
fn a_submitter_has_name_address_and_phone() {
    let mut parser = on_first_tag(
        "0 @U1@ SUBM\n1 NAME Jane\n1 ADDR\n2 CONT Somewhere\n1 PHON 555 1234\n1 LANG English\n",
    );
    let submitter = parser.parse_submitter(0, some("U1"));
    assert_eq!(submitter.xref, some("U1"));
    assert_eq!(submitter.name, some("Jane"));
    assert_eq!(submitter.address.as_ref().unwrap().value, some("\nSomewhere"));
    assert_eq!(submitter.phone, some("555 1234"));
    assert_eq!(parser.kind(), TokenKind::EOF);
    assert_eq!(parser.diagnostics().len(), 1);
    assert_eq!(parser.diagnostics()[0].scope, Scope::Submitter);
    assert_eq!(Submitter::new(None).name, None);
}

#[test]
fn the_events_of_a_source_are_read_alone() {
    let mut parser = on_first_tag("2 EVEN MARR\n3 DATE 1800\n2 AGNC x");
    let event = parser.parse_source_events(2);
    assert_eq!(event.event, EventType::SourceData("MARR".to_string()));
    assert_eq!(event.date, some("1800"));
    assert_eq!(parser.kind(), TokenKind::Level(2));
    let mut other = Event::from_tag("EVEN");
    other.date = some("1800");
    other.with_source_data("MARR".to_string());
    assert_eq!(event, other);
}

#[test]
fn the_lines_of_an_event_are_read_alone() {
    let mut parser = Parser::new("2 DATE 1900\n2 PLAC Rome\n1 SEX M".chars());
    let event = parser.parse_event_lines(Event::new(EventType::Death), 1);
    assert_eq!(event.event, EventType::Death);
    assert_eq!(event.date, some("1900"));
    assert_eq!(event.place, some("Rome"));
    assert_eq!(parser.kind(), TokenKind::Level(1));
}

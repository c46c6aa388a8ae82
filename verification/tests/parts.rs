use gedcom::diagnostic::{Anomaly, Scope};
use gedcom::parser::Parser;
use gedcom::token::{Token, TokenKind};
use gedcom::tree::{GedcomData, Summary};
use gedcom::types::address::Address;
use gedcom::types::event::{life_event_tag, Event, EventType, SourceCitation};
use gedcom::types::family::Family;
use gedcom::types::header::Header;
use gedcom::types::individual::{CustomData, FamilyLink, FamilyLinkType, Individual, Name};

fn some_text(value: &str) -> Option<String> {
    Some(value.to_string())
}

/// A parser that stands on the tag of the first line of `text`.
fn at_first_tag(text: &str) -> Parser {
    let mut parser = Parser::new(text.chars());
    assert!(matches!(parser.kind(), TokenKind::Level(_)));
    parser.advance();
    parser
}

#[test]
fn skipping_stops_at_the_end_of_the_scope() {
    let mut parser = at_first_tag("1 XYZ a\n2 ABC b\n3 DEF\n2 GHI\n1 SEX M\n0 TRLR");
    parser.skip_level(1);
    assert_eq!(parser.kind(), TokenKind::Level(1));
    assert_eq!(parser.line(), 5);
    parser.advance();
    assert!(parser.text_is("SEX"));
}

#[test]
fn skipping_twice_is_skipping_once() {
    let mut parser = at_first_tag("1 XYZ a\n2 ABC b\n1 SEX M\n1 NAME A\n0 TRLR");
    parser.skip_level(1);
    assert_eq!(parser.line(), 3);
    parser.skip_level(1);
    assert_eq!(parser.line(), 3);
    assert_eq!(parser.kind(), TokenKind::Level(1));
    parser.skip_level(0);
    assert_eq!(parser.line(), 5);
    assert_eq!(parser.kind(), TokenKind::Level(0));
    parser.skip_level(0);
    assert_eq!(parser.line(), 5);
    parser.skip_level(7);
    assert_eq!(parser.line(), 5);
}

#[test]
fn skipping_stops_at_the_end_of_the_text() {
    let mut parser = at_first_tag("1 XYZ a\n2 ABC b\n3 DEF c");
    parser.skip_level(1);
    assert_eq!(parser.kind(), TokenKind::EOF);
    parser.skip_level(1);
    assert_eq!(parser.kind(), TokenKind::EOF);
    assert_eq!(parser.line(), 3);
}

#[test]
fn skipping_passes_no_report() {
    let mut parser = at_first_tag("1 XYZ a\n2 ABC b\n1 SEX M");
    parser.skip_level(1);
    assert!(parser.diagnostics().is_empty());
}

#[test]
fn a_line_value_is_taken_with_its_tag() {
    let mut parser = at_first_tag("1 NAME John\n1 SEX M");
    assert_eq!(parser.take_line_value(), "John");
    assert_eq!(parser.kind(), TokenKind::Level(1));
    assert!(parser.diagnostics().is_empty());
}

#[test]
fn a_missing_line_value_is_empty_and_reported() {
    let mut parser = at_first_tag("1 NAME\n1 SEX M");
    assert_eq!(parser.take_line_value(), "");
    assert_eq!(parser.kind(), TokenKind::Level(1));
    assert_eq!(parser.line(), 2);
    let reports = parser.diagnostics();
    assert_eq!(reports.len(), 1);
    assert_eq!(reports[0].scope, Scope::LineValue);
    assert_eq!(reports[0].anomaly, Anomaly::MissingLineValue);
    assert_eq!(reports[0].found, Token::Level(1));
    assert_eq!(reports[0].line, 2);
}

#[test]
fn one_conc_line_adds_a_space_and_its_value() {
    let mut parser = at_first_tag("1 NOTE A\n2 CONC B\n1 SEX M");
    assert_eq!(parser.take_continued_text(1), "A B");
    assert_eq!(parser.kind(), TokenKind::Level(1));
    assert!(parser.diagnostics().is_empty());
}

#[test]
fn one_cont_line_adds_a_line_feed_and_its_value() {
    let mut parser = at_first_tag("1 NOTE A\n2 CONT B\n1 SEX M");
    assert_eq!(parser.take_continued_text(1), "A\nB");
    assert_eq!(parser.kind(), TokenKind::Level(1));
    assert!(parser.diagnostics().is_empty());
}

#[test]
fn a_continued_text_takes_all_its_lines() {
    let mut parser =
        at_first_tag("3 TEXT one\n4 CONT two\n4 CONC three\n4 CONT\n4 XYZ no\n5 CONT no\n4 CONC four\n3 NEXT");
    assert_eq!(parser.take_continued_text(3), "one\ntwo three\n four");
    assert_eq!(parser.kind(), TokenKind::Level(3));
    let reports = parser.diagnostics();
    assert_eq!(reports.len(), 2);
    assert_eq!(reports[0].anomaly, Anomaly::MissingLineValue);
    assert_eq!(reports[1].scope, Scope::Continuation);
    assert_eq!(reports[1].anomaly, Anomaly::UnhandledTag);
    assert_eq!(reports[1].found, Token::Tag("XYZ".to_string()));
}

#[test]
fn a_continued_text_alone_is_its_value() {
    let mut parser = at_first_tag("1 NOTE only\n");
    assert_eq!(parser.take_continued_text(1), "only");
    assert_eq!(parser.kind(), TokenKind::EOF);
}

#[test]
fn an_address_has_its_text_and_its_parts() {
    let mut parser = at_first_tag(
        "1 ADDR 1 Main Street\n2 CONT Springfield\n2 ADR1 1 Main Street\n2 ADR2 Floor 2\n\
         2 ADR3 Room 3\n2 CITY Springfield\n2 STAE IL\n2 POST 62701\n2 CTRY USA\n2 PHON 555\n1 SEX M",
    );
    let address = parser.parse_address(1);
    assert_eq!(address.value, some_text("1 Main Street\nSpringfield"));
    assert_eq!(address.adr1, some_text("1 Main Street"));
    assert_eq!(address.adr2, some_text("Floor 2"));
    assert_eq!(address.adr3, some_text("Room 3"));
    assert_eq!(address.city, some_text("Springfield"));
    assert_eq!(address.state, some_text("IL"));
    assert_eq!(address.post, some_text("62701"));
    assert_eq!(address.country, some_text("USA"));
    assert_eq!(parser.kind(), TokenKind::Level(1));
    assert_eq!(parser.diagnostics().len(), 1);
    assert_eq!(parser.diagnostics()[0].scope, Scope::Address);
}

#[test]
fn an_address_without_text_has_no_value() {
    let mut parser = at_first_tag("1 ADDR\n2 CITY Springfield\n1 SEX M");
    let address = parser.parse_address(1);
    assert_eq!(address.value, None);
    assert_eq!(address.city, some_text("Springfield"));
    assert!(parser.diagnostics().is_empty());
    assert_eq!(address, Address { city: some_text("Springfield"), ..Address::default() });
}

#[test]
fn an_address_may_begin_with_a_continuation() {
    let mut parser = at_first_tag("1 ADDR\n2 CONT Springfield\n");
    assert_eq!(parser.parse_address(1).value, some_text("\nSpringfield"));
}

#[test]
fn a_citation_has_its_page() {
    let mut parser = at_first_tag("2 SOUR @S1@\n3 PAGE 12\n3 QUAY 2\n2 DATE x");
    let citation = parser.parse_citation(2);
    assert_eq!(citation, SourceCitation { xref: "@S1@".to_string(), page: some_text("12") });
    assert_eq!(parser.kind(), TokenKind::Level(2));
    assert_eq!(parser.diagnostics().len(), 1);
    assert_eq!(parser.diagnostics()[0].scope, Scope::Citation);
}

#[test]
fn a_repository_citation_has_its_call_number() {
    let mut parser = at_first_tag("1 REPO @R1@\n2 CALN 13B-1234.01\n2 NOTE x\n0 TRLR");
    let citation = parser.parse_repo_citation(1);
    assert_eq!(citation.xref, "@R1@");
    assert_eq!(citation.call_number, some_text("13B-1234.01"));
    assert_eq!(parser.kind(), TokenKind::Level(0));
    assert_eq!(parser.diagnostics().len(), 1);
    assert_eq!(parser.diagnostics()[0].scope, Scope::RepoCitation);
}

#[test]
fn a_family_link_has_its_kind_and_pedigree() {
    let mut parser = at_first_tag("1 FAMC @F1@\n2 PEDI adopted\n2 NOTE x\n1 FAMS @F2@");
    let link = parser.parse_family_link("FAMC", 1);
    assert_eq!(link.xref, "@F1@");
    assert_eq!(link.kind, FamilyLinkType::Child);
    assert_eq!(link.pedigree, some_text("adopted"));
    parser.advance();
    let link = parser.parse_family_link("FAMS", 1);
    assert_eq!(link, FamilyLink::new("@F2@".to_string(), "FAMS"));
    assert_eq!(link.kind, FamilyLinkType::Spouse);
    assert_eq!(parser.diagnostics().len(), 1);
    assert_eq!(parser.diagnostics()[0].scope, Scope::FamilyLink);
}

#[test]
fn a_name_is_read_alone() {
    let mut parser = at_first_tag("1 NAME John /Doe/\n2 GIVN John\n2 SURN Doe\n1 SEX M");
    let name = parser.parse_name(1);
    assert_eq!(
        name,
        Name {
            value: some_text("John /Doe/"),
            given: some_text("John"),
            surname: some_text("Doe"),
            ..Name::default()
        }
    );
    assert_eq!(parser.kind(), TokenKind::Level(1));
}

#[test]
fn an_event_is_read_alone() {
    let mut parser = at_first_tag("1 EVEN\n2 DATE 1900\n2 SOUR @S1@\n2 SOUR @S2@\n3 PAGE 3\n1 SEX M");
    let event = parser.parse_event("EVEN", 1);
    assert_eq!(event.event, EventType::Other("EVEN".to_string()));
    assert_eq!(event.date, some_text("1900"));
    assert_eq!(event.place, None);
    assert_eq!(
        event.citations,
        vec![
            SourceCitation { xref: "@S1@".to_string(), page: None },
            SourceCitation { xref: "@S2@".to_string(), page: some_text("3") },
        ]
    );
    assert_eq!(parser.kind(), TokenKind::Level(1));
}

#[test]
fn a_custom_line_is_kept() {
    let mut parser = at_first_tag("1 _UID 99\n1 SEX M");
    let data = parser.parse_custom_tag("_UID".to_string());
    assert_eq!(data, CustomData { tag: "_UID".to_string(), value: "99".to_string() });
    assert_eq!(parser.kind(), TokenKind::Level(1));
}

#[test]
fn the_tags_of_events() {
    assert_eq!(EventType::from_tag("ADOP"), EventType::Adoption);
    assert_eq!(EventType::from_tag("BIRT"), EventType::Birth);
    assert_eq!(EventType::from_tag("BURI"), EventType::Burial);
    assert_eq!(EventType::from_tag("CHR"), EventType::Christening);
    assert_eq!(EventType::from_tag("CREM"), EventType::Cremation);
    assert_eq!(EventType::from_tag("DEAT"), EventType::Death);
    assert_eq!(EventType::from_tag("MARR"), EventType::Marriage);
    assert_eq!(EventType::from_tag("RESI"), EventType::Residence);
    assert_eq!(EventType::from_tag("GRAD"), EventType::Other("GRAD".to_string()));
    for tag in [
        "ADOP", "BIRT", "BAPM", "BARM", "BASM", "BLES", "BURI", "CENS", "CHR", "CHRA", "CONF",
        "CREM", "DEAT", "EMIG", "FCOM", "GRAD", "IMMI", "NATU", "ORDN", "RETI", "RESI", "PROB",
        "WILL", "EVEN",
    ] {
        assert!(life_event_tag(tag));
    }
    assert!(!life_event_tag("MARR"));
    assert!(!life_event_tag("NAME"));
    assert!(!life_event_tag(""));
    assert_eq!(Event::from_tag("BIRT"), Event::new(EventType::Birth));
}

#[test]
fn records_are_built_by_hand() {
    let mut person = Individual::new(some_text("I1"));
    assert_eq!(person.xref, some_text("I1"));
    assert!(person.events.is_empty() && person.families.is_empty() && person.custom_data.is_empty());
    person.add_event(Event::from_tag("BIRT"));
    person.add_event(Event::from_tag("DEAT"));
    person.add_family(FamilyLink::new("@F1@".to_string(), "FAMC"));
    person.add_family(FamilyLink::new("@F1@".to_string(), "FAMS"));
    person.add_custom_data(CustomData { tag: "_A".to_string(), value: "b".to_string() });
    assert_eq!(person.events[1].event, EventType::Death);
    assert_eq!(person.families.len(), 2);
    assert_eq!(person.custom_data.len(), 1);

    let mut family = Family::new(None);
    family.set_individual1("@I1@".to_string());
    family.set_individual2("@I2@".to_string());
    family.set_individual1("@I3@".to_string());
    family.add_child("@I4@".to_string());
    family.add_child("@I5@".to_string());
    family.add_event(Event::from_tag("MARR"));
    assert_eq!(family.individual1, some_text("@I3@"));
    assert_eq!(family.individual2, some_text("@I2@"));
    assert_eq!(family.children, vec!["@I4@".to_string(), "@I5@".to_string()]);
    assert_eq!(family.events.len(), 1);

    let mut link = FamilyLink::new("@F1@".to_string(), "FAMC");
    link.set_pedigree("foster".to_string());
    assert_eq!(link.pedigree, some_text("foster"));

    let mut event = Event::new(EventType::Burial);
    event.add_citation(SourceCitation { xref: "@S1@".to_string(), page: None });
    assert_eq!(event.citations.len(), 1);

    let mut header = Header::default();
    header.add_destination("A".to_string());
    header.add_destination("B".to_string());
    assert_eq!(header.destinations, vec!["A".to_string(), "B".to_string()]);

    let mut data = GedcomData::default();
    assert_eq!(data.stats(), Summary { individuals: 0, families: 0 });
    data.add_individual(person.clone());
    data.add_family(family.clone());
    data.add_individual(Individual::new(None));
    assert_eq!(data.stats(), Summary { individuals: 2, families: 1 });
    assert_eq!(data.individuals[0], person);
    assert_eq!(data.families[0], family);
}

#[test]
fn the_line_is_named_in_messages() {
    let mut parser = Parser::new("".chars());
    assert_eq!(parser.dbg(), "line 0:");
    let mut text = String::new();
    for _ in 0..1203 {
        text.push_str("1 X\n");
    }
    parser = Parser::new(text.chars());
    assert_eq!(parser.dbg(), "line 1:");
    parser.skip_level(0);
    assert_eq!(parser.line(), 1203);
    assert_eq!(parser.dbg(), "line 1203:");
}

#[test]
fn reports_are_made_in_the_current_line() {
    let mut parser = at_first_tag("4 ABC def\n5 X");
    parser.warn(Scope::Event, Anomaly::UnhandledTag);
    parser.report(Scope::Gedcom, Anomaly::UnrecognizedForm, Token::LineValue("f".to_string()));
    parser.advance();
    parser.advance();
    parser.warn(Scope::Name, Anomaly::UnhandledToken);
    let reports = parser.into_diagnostics();
    assert_eq!(reports.len(), 3);
    assert_eq!(reports[0].line, 1);
    assert_eq!(reports[0].found, Token::Tag("ABC".to_string()));
    assert_eq!(reports[1].found, Token::LineValue("f".to_string()));
    assert_eq!(reports[2].line, 2);
    assert_eq!(reports[2].found, Token::Level(5));
}

#[test]
fn the_text_of_the_current_token() {
    let mut parser = at_first_tag("1 NAME John");
    assert_eq!(parser.text(), "NAME");
    assert!(parser.text_is("NAME"));
    assert!(!parser.text_is("NAM"));
    parser.advance();
    assert_eq!(parser.text(), "John");
    parser.advance();
    assert_eq!(parser.text(), "");
    assert!(parser.text_is(""));
}

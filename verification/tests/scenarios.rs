use gedcom::diagnostic::{Anomaly, Diagnostic, Fault, Scope};
use gedcom::{parse, parse_text};
use gedcom::parser::Parser;
use gedcom::token::{Token, TokenKind};
use gedcom::tree::Summary;
use gedcom::types::event::EventType;
use gedcom::types::individual::{FamilyLinkType, Gender};

fn text_of(value: &str) -> Option<String> {
    Some(value.to_string())
}

#[test]
fn parses_a_small_document() {
    let text = "0 HEAD\n1 GEDC\n2 VERS 5.5.1\n0 @I1@ INDI\n1 NAME John /Doe/\n1 SEX M\n0 TRLR";
    let mut parser = Parser::new(text.chars());
    let data = parser.parse_record().unwrap();
    assert_eq!(data.families.len(), 0);
    assert_eq!(data.individuals.len(), 1);
    let person = &data.individuals[0];
    assert_eq!(person.xref, text_of("I1"));
    assert_eq!(person.name.as_ref().unwrap().value, text_of("John /Doe/"));
    assert_eq!(person.sex, Gender::Male);
    assert_eq!(data.header.gedcom_version, text_of("5.5.1"));
    assert!(parser.diagnostics().is_empty());
    assert_eq!(data.stats(), Summary { individuals: 1, families: 0 });
}

#[test]
fn parse_gives_the_document_and_the_reports() {
    let (found, reports) = parse("0 HEAD\n0 @F1@ FAM\n1 XYZ\n0 TRLR".chars());
    let data = found.unwrap();
    assert_eq!(data.families.len(), 1);
    assert_eq!(data.families[0].xref, text_of("F1"));
    assert_eq!(
        reports,
        vec![Diagnostic {
            line: 3,
            scope: Scope::Family,
            anomaly: Anomaly::UnhandledTag,
            found: Token::Tag("XYZ".to_string()),
        }]
    );
}

#[test]
fn change_date_is_the_last_update() {
    let text = "0 @I1@ INDI\n1 CHAN\n2 DATE 1 JAN 2000\n0 TRLR\n";
    let mut parser = Parser::new(text.chars());
    let data = parser.parse_record().unwrap();
    assert_eq!(data.individuals[0].last_updated, text_of("1 JAN 2000"));
    assert!(parser.diagnostics().is_empty());
}

#[test]
fn lines_under_the_change_date_are_skipped() {
    let text = "0 @I1@ INDI\n1 CHAN\n2 DATE 1 JAN 2000\n3 TIME 12:00\n1 SEX F\n0 TRLR\n";
    let mut parser = Parser::new(text.chars());
    let data = parser.parse_record().unwrap();
    assert_eq!(data.individuals[0].last_updated, text_of("1 JAN 2000"));
    assert_eq!(data.individuals[0].sex, Gender::Female);
    assert_eq!(parser.diagnostics().len(), 1);
    assert_eq!(parser.diagnostics()[0].anomaly, Anomaly::UnhandledTag);
    assert_eq!(parser.diagnostics()[0].found, Token::Tag("TIME".to_string()));
}

#[test]
fn change_without_date_is_fatal() {
    let text = "0 @I1@ INDI\n1 CHAN\n1 SEX M\n0 TRLR\n";
    let mut parser = Parser::new(text.chars());
    let error = parser.parse_record().unwrap_err();
    assert_eq!(error.fault, Fault::ChangeWithoutDate);
    assert_eq!(error.line, 3);
    assert_eq!(parser.kind(), TokenKind::Level(1));
}

#[test]
fn change_with_another_line_under_it_is_fatal() {
    let text = "0 @I1@ INDI\n1 CHAN\n2 NOTE changed\n0 TRLR\n";
    let error = parse(text.chars()).0.unwrap_err();
    assert_eq!(error.fault, Fault::ChangeWithoutDate);
    assert_eq!(error.line, 3);
}

#[test]
fn change_at_the_end_of_the_text_is_fatal() {
    let error = parse("0 @I1@ INDI\n1 CHAN".chars()).0.unwrap_err();
    assert_eq!(error.fault, Fault::ChangeWithoutDate);
    assert_eq!(error.line, 2);
}

#[test]
fn unknown_top_level_tag_is_reported_and_skipped() {
    let text = "0 FOO bar\n1 BAZ x\n0 TRLR\n";
    let mut parser = Parser::new(text.chars());
    let data = parser.parse_record().unwrap();
    assert_eq!(data.individuals.len(), 0);
    assert_eq!(data.families.len(), 0);
    let reports = parser.diagnostics();
    assert_eq!(reports.len(), 1);
    assert_eq!(reports[0].scope, Scope::Record);
    assert_eq!(reports[0].anomaly, Anomaly::UnhandledTag);
    assert_eq!(reports[0].line, 1);
    assert_eq!(reports[0].found, Token::Tag("FOO".to_string()));
}

#[test]
fn unknown_top_level_tag_between_records_leaves_the_counts() {
    let with = "0 @I1@ INDI\n0 FOO bar\n1 INDI\n0 @F1@ FAM\n0 TRLR";
    let without = "0 @I1@ INDI\n0 @F1@ FAM\n0 TRLR";
    let a = parse(with.chars()).0.unwrap();
    let b = parse(without.chars()).0.unwrap();
    assert_eq!(a, b);
    assert_eq!(a.stats(), Summary { individuals: 1, families: 1 });
}

#[test]
fn records_that_are_not_read_are_skipped_without_a_report() {
    let text = "0 @S1@ SOUR\n1 TITL A book\n0 @R1@ REPO\n1 NAME Library\n0 @U1@ SUBM\n1 NAME Me\n0 TRLR";
    let (found, reports) = parse(text.chars());
    let data = found.unwrap();
    assert_eq!(data.stats(), Summary { individuals: 0, families: 0 });
    assert!(reports.is_empty());
}

#[test]
fn a_custom_record_is_reported_and_skipped() {
    let text = "0 _PLACE Somewhere\n1 NAME x\n0 @I1@ INDI\n0 TRLR";
    let (found, reports) = parse(text.chars());
    let data = found.unwrap();
    assert_eq!(data.individuals.len(), 1);
    assert_eq!(reports.len(), 1);
    assert_eq!(reports[0].scope, Scope::Record);
    assert_eq!(reports[0].anomaly, Anomaly::SkippedCustomTag);
    assert_eq!(reports[0].found, Token::CustomTag("_PLACE".to_string()));
}

#[test]
fn a_custom_record_without_value_does_not_hide_the_next_record() {
    let text = "0 _PLACE\n0 @I1@ INDI\n0 TRLR";
    let (found, reports) = parse(text.chars());
    assert_eq!(found.unwrap().individuals.len(), 1);
    assert_eq!(reports.len(), 2);
    assert_eq!(reports[0].anomaly, Anomaly::SkippedCustomTag);
    assert_eq!(reports[1].anomaly, Anomaly::MissingLineValue);
    assert_eq!(reports[1].scope, Scope::LineValue);
    assert_eq!(reports[1].found, Token::Level(0));
}

#[test]
fn a_level_without_a_tag_is_reported() {
    let text = "0\n0 @I1@\n0 @I2@ INDI\n0 TRLR";
    let (found, reports) = parse(text.chars());
    let data = found.unwrap();
    assert_eq!(data.individuals.len(), 1);
    assert_eq!(data.individuals[0].xref, text_of("I2"));
    assert_eq!(reports.len(), 2);
    assert_eq!(reports[0].anomaly, Anomaly::UnhandledToken);
    assert_eq!(reports[0].found, Token::Level(0));
    assert_eq!(reports[1].anomaly, Anomaly::UnhandledToken);
    assert_eq!(reports[1].found, Token::Level(0));
}

#[test]
fn a_text_without_trailer_is_fatal() {
    let error = parse("0 HEAD\n0 @I1@ INDI\n1 SEX M\n".chars()).0.unwrap_err();
    assert_eq!(error.fault, Fault::MissingLevel);
    assert_eq!(error.line, 3);
    let error = parse("".chars()).0.unwrap_err();
    assert_eq!(error.fault, Fault::MissingLevel);
    assert_eq!(error.line, 0);
}

#[test]
fn a_text_that_begins_without_a_level_is_fatal() {
    let mut parser = Parser::new("HEAD\n0 TRLR".chars());
    let error = parser.parse_record().unwrap_err();
    assert_eq!(error.fault, Fault::MissingLevel);
    assert_eq!(error.line, 0);
    assert_eq!(parser.kind(), TokenKind::Tag);
    assert!(parser.text_is("HEAD"));
}

#[test]
fn nothing_is_read_after_the_trailer() {
    let mut parser = Parser::new("0 TRLR\n0 @I1@ INDI\n".chars());
    let data = parser.parse_record().unwrap();
    assert_eq!(data.individuals.len(), 0);
    assert_eq!(parser.kind(), TokenKind::Tag);
    assert!(parser.text_is("TRLR"));
}

#[test]
fn individuals_and_families_keep_the_order_of_the_file() {
    let text = "0 HEAD\n0 @I3@ INDI\n1 NAME C\n0 @F2@ FAM\n0 @I1@ INDI\n0 INDI\n0 @S1@ SOUR\n\
                0 @F1@ FAM\n1 CHIL @I1@\n0 @I1@ INDI\n0 TRLR\n";
    let data = parse(text.chars()).0.unwrap();
    let people: Vec<Option<String>> = data.individuals.iter().map(|i| i.xref.clone()).collect();
    assert_eq!(people, vec![text_of("I3"), text_of("I1"), None, text_of("I1")]);
    let families: Vec<Option<String>> = data.families.iter().map(|f| f.xref.clone()).collect();
    assert_eq!(families, vec![text_of("F2"), text_of("F1")]);
    assert_eq!(data.stats(), Summary { individuals: 4, families: 2 });
}

#[test]
fn the_sex_codes() {
    for (code, sex, reports) in [
        ("M", Gender::Male, 0),
        ("F", Gender::Female, 0),
        ("N", Gender::Nonbinary, 0),
        ("U", Gender::Unknown, 0),
        ("X", Gender::Unknown, 1),
        ("m", Gender::Unknown, 1),
        ("MF", Gender::Unknown, 1),
    ] {
        let text = format!("0 @I1@ INDI\n1 SEX {}\n0 TRLR", code);
        let (found, found_reports) = parse(text.chars());
        assert_eq!(found.unwrap().individuals[0].sex, sex);
        assert_eq!(found_reports.len(), reports);
        if reports == 1 {
            assert_eq!(found_reports[0].anomaly, Anomaly::UnknownGender);
            assert_eq!(found_reports[0].scope, Scope::Individual);
            assert_eq!(found_reports[0].line, 2);
            assert_eq!(found_reports[0].found, Token::LineValue(code.to_string()));
        }
    }
}

#[test]
fn a_sex_line_without_value_is_reported() {
    let text = "0 @I1@ INDI\n1 SEX\n1 NAME A\n0 TRLR";
    let (found, reports) = parse(text.chars());
    let data = found.unwrap();
    assert_eq!(data.individuals[0].sex, Gender::Unknown);
    assert_eq!(data.individuals[0].name.as_ref().unwrap().value, text_of("A"));
    assert_eq!(reports.len(), 1);
    assert_eq!(reports[0].anomaly, Anomaly::MissingGender);
    assert_eq!(reports[0].found, Token::Level(1));
}

#[test]
fn gender_codes_are_read_alone() {
    assert_eq!(Gender::from_code("M"), Some(Gender::Male));
    assert_eq!(Gender::from_code("F"), Some(Gender::Female));
    assert_eq!(Gender::from_code("N"), Some(Gender::Nonbinary));
    assert_eq!(Gender::from_code("U"), Some(Gender::Unknown));
    assert_eq!(Gender::from_code(""), None);
    assert_eq!(Gender::from_code("male"), None);
    assert_eq!(Gender::default(), Gender::Unknown);
}

#[test]
fn a_parser_reads_a_sex_line() {
    let mut parser = Parser::new("1 SEX N\n1 SEX Q\n".chars());
    parser.advance();
    assert_eq!(parser.parse_gender(), Gender::Nonbinary);
    assert_eq!(parser.kind(), TokenKind::Level(1));
    parser.advance();
    assert_eq!(parser.parse_gender(), Gender::Unknown);
    assert_eq!(parser.kind(), TokenKind::EOF);
    assert_eq!(parser.diagnostics().len(), 1);
}

#[test]
fn the_family_has_its_members_in_every_order() {
    let lines = ["1 HUSB @I1@", "1 WIFE @I2@", "1 CHIL @I3@", "1 CHIL @I4@"];
    let orders = [
        [0, 1, 2, 3],
        [0, 2, 1, 3],
        [0, 2, 3, 1],
        [1, 0, 2, 3],
        [1, 2, 0, 3],
        [1, 2, 3, 0],
        [2, 0, 1, 3],
        [2, 0, 3, 1],
        [2, 1, 0, 3],
        [2, 1, 3, 0],
        [2, 3, 0, 1],
        [2, 3, 1, 0],
    ];
    for order in orders {
        let mut text = String::from("0 @F1@ FAM\n");
        for i in order {
            text.push_str(lines[i]);
            text.push('\n');
        }
        text.push_str("0 TRLR\n");
        let (found, reports) = parse(text.chars());
        let data = found.unwrap();
        assert_eq!(data.families.len(), 1);
        let family = &data.families[0];
        assert_eq!(family.xref, text_of("F1"));
        assert_eq!(family.individual1, text_of("@I1@"));
        assert_eq!(family.individual2, text_of("@I2@"));
        assert_eq!(family.children, vec!["@I3@".to_string(), "@I4@".to_string()]);
        assert!(family.events.is_empty());
        assert!(reports.is_empty());
    }
}

#[test]
fn the_last_partner_line_counts() {
    let text = "0 FAM\n1 HUSB @I1@\n1 HUSB @I9@\n1 WIFE @I2@\n0 TRLR";
    let data = parse(text.chars()).0.unwrap();
    assert_eq!(data.families[0].xref, None);
    assert_eq!(data.families[0].individual1, text_of("@I9@"));
    assert_eq!(data.families[0].individual2, text_of("@I2@"));
}

#[test]
fn a_family_has_its_marriage() {
    let text = "0 @F1@ FAM\n1 MARR\n2 DATE 1 APR 1950\n2 PLAC Paris\n2 SOUR @S1@\n3 PAGE 42\n\
                2 XYZ\n1 CHIL @I3@\n1 _CUSTOM x\n0 TRLR";
    let (found, reports) = parse(text.chars());
    let data = found.unwrap();
    let family = &data.families[0];
    assert_eq!(family.events.len(), 1);
    let marriage = &family.events[0];
    assert_eq!(marriage.event, EventType::Marriage);
    assert_eq!(marriage.date, text_of("1 APR 1950"));
    assert_eq!(marriage.place, text_of("Paris"));
    assert_eq!(marriage.citations.len(), 1);
    assert_eq!(marriage.citations[0].xref, "@S1@");
    assert_eq!(marriage.citations[0].page, text_of("42"));
    assert_eq!(family.children, vec!["@I3@".to_string()]);
    assert_eq!(reports.len(), 2);
    assert_eq!(reports[0].scope, Scope::Event);
    assert_eq!(reports[0].anomaly, Anomaly::UnhandledTag);
    assert_eq!(reports[0].line, 7);
    assert_eq!(reports[1].scope, Scope::Family);
    assert_eq!(reports[1].anomaly, Anomaly::UnhandledToken);
    assert_eq!(reports[1].found, Token::CustomTag("_CUSTOM".to_string()));
}

#[test]
fn an_individual_has_all_its_parts() {
    let text = "0 @I1@ INDI\n\
                1 NAME Anna Maria /van der Berg/ Jr.\n\
                2 GIVN Anna Maria\n2 SURN Berg\n2 SPFX van der\n2 NSFX Jr.\n2 NPFX Dr.\n2 NICK Ann\n\
                1 SEX F\n\
                1 BIRT\n2 DATE 2 FEB 1902\n2 PLAC Utrecht\n\
                1 BAPM\n2 DATE 9 FEB 1902\n\
                1 DEAT Y\n2 DATE 1990\n\
                1 FAMC @F1@\n2 PEDI birth\n\
                1 FAMS @F2@\n\
                1 _UID 1234\n\
                1 OCCU Baker\n2 DATE 1930\n\
                1 RESI\n2 ADDR Main Street\n\
                0 TRLR";
    let (found, reports) = parse(text.chars());
    let data = found.unwrap();
    let person = &data.individuals[0];
    let name = person.name.as_ref().unwrap();
    assert_eq!(name.value, text_of("Anna Maria /van der Berg/ Jr."));
    assert_eq!(name.given, text_of("Anna Maria"));
    assert_eq!(name.surname, text_of("Berg"));
    assert_eq!(name.surname_prefix, text_of("van der"));
    assert_eq!(name.suffix, text_of("Jr."));
    assert_eq!(name.prefix, text_of("Dr."));
    assert_eq!(person.sex, Gender::Female);
    assert_eq!(person.events.len(), 4);
    assert_eq!(person.events[0].event, EventType::Birth);
    assert_eq!(person.events[0].date, text_of("2 FEB 1902"));
    assert_eq!(person.events[0].place, text_of("Utrecht"));
    assert_eq!(person.events[1].event, EventType::Other("BAPM".to_string()));
    assert_eq!(person.events[1].date, text_of("9 FEB 1902"));
    assert_eq!(person.events[2].event, EventType::Death);
    assert_eq!(person.events[2].date, None);
    assert_eq!(person.events[3].event, EventType::Residence);
    assert_eq!(person.families.len(), 2);
    assert_eq!(person.families[0].xref, "@F1@");
    assert_eq!(person.families[0].kind, FamilyLinkType::Child);
    assert_eq!(person.families[0].pedigree, text_of("birth"));
    assert_eq!(person.families[1].xref, "@F2@");
    assert_eq!(person.families[1].kind, FamilyLinkType::Spouse);
    assert_eq!(person.families[1].pedigree, None);
    assert_eq!(person.custom_data.len(), 1);
    assert_eq!(person.custom_data[0].tag, "_UID");
    assert_eq!(person.custom_data[0].value, "1234");
    assert_eq!(person.last_updated, None);
    let seen: Vec<(usize, Scope, Anomaly)> =
        reports.iter().map(|r| (r.line, r.scope, r.anomaly)).collect();
    assert_eq!(
        seen,
        vec![
            (8, Scope::Name, Anomaly::UnhandledTag),
            (15, Scope::Event, Anomaly::UnhandledToken),
            (21, Scope::Individual, Anomaly::UnhandledTag),
            (24, Scope::Event, Anomaly::UnhandledTag),
        ]
    );
}

#[test]
fn a_name_without_value_leaves_the_next_line() {
    let text = "0 @I1@ INDI\n1 NAME\n1 SEX M\n0 TRLR";
    let (found, reports) = parse(text.chars());
    let data = found.unwrap();
    assert_eq!(data.individuals[0].name.as_ref().unwrap().value, text_of(""));
    assert_eq!(data.individuals[0].sex, Gender::Male);
    assert_eq!(reports.len(), 1);
    assert_eq!(reports[0].anomaly, Anomaly::MissingLineValue);
}

#[test]
fn a_line_without_level_in_a_record_is_reported() {
    let text = "0 @I1@ INDI\n1 NAME A\nstray words\n1 SEX M\n0 TRLR";
    let (found, reports) = parse(text.chars());
    let data = found.unwrap();
    assert_eq!(data.individuals[0].sex, Gender::Male);
    assert_eq!(reports.len(), 1);
    assert_eq!(reports[0].scope, Scope::Name);
    assert_eq!(reports[0].anomaly, Anomaly::UnhandledTag);
    assert_eq!(reports[0].found, Token::Tag("stray".to_string()));
}

#[test]
fn the_header_has_its_parts() {
    let text = "0 HEAD\n1 SOUR Program\n2 VERS 1.0\n2 CORP Inner\n1 DEST One\n1 DEST Two\n\
                1 DATE 1 JAN 2020\n2 TIME 10:11:12\n1 SUBM @U1@\n1 SUBN @N1@\n1 FILE tree.ged\n\
                1 COPR (c) nobody\n1 CORP Outer\n1 GEDC\n2 VERS 5.5\n2 FORM Lineage-Linked\n\
                1 CHAR UTF-8\n1 LANG English\n1 NOTE A note\n2 CONT on two lines\n2 CONC joined\n\
                1 PLAC\n2 FORM City\n0 TRLR";
    let (found, reports) = parse(text.chars());
    let header = found.unwrap().header;
    assert_eq!(header.destinations, vec!["One".to_string(), "Two".to_string()]);
    assert_eq!(header.date, text_of("1 JAN 2020 10:11:12"));
    assert_eq!(header.submitter_tag, text_of("@U1@"));
    assert_eq!(header.submission_tag, text_of("@N1@"));
    assert_eq!(header.filename, text_of("tree.ged"));
    assert_eq!(header.copyright, text_of("(c) nobody"));
    assert_eq!(header.corporation, text_of("Outer"));
    assert_eq!(header.gedcom_version, text_of("5.5"));
    assert_eq!(header.encoding, text_of("UTF-8"));
    assert_eq!(header.language, text_of("English"));
    assert_eq!(header.note, text_of("A note\non two lines joined"));
    let seen: Vec<(usize, Scope, Anomaly)> =
        reports.iter().map(|r| (r.line, r.scope, r.anomaly)).collect();
    assert_eq!(
        seen,
        vec![
            (2, Scope::Header, Anomaly::SkippedSource),
            (22, Scope::Header, Anomaly::UnhandledTag),
        ]
    );
}

#[test]
fn a_time_without_date_is_fatal() {
    let text = "0 HEAD\n1 CHAR UTF-8\n1 TIME 10:11:12\n1 DATE 1 JAN 2020\n0 TRLR";
    let mut parser = Parser::new(text.chars());
    let error = parser.parse_record().unwrap_err();
    assert_eq!(error.fault, Fault::TimeWithoutDate);
    assert_eq!(error.line, 3);
    assert!(parser.text_is("TIME"));
}

#[test]
fn another_form_is_reported() {
    let text = "0 HEAD\n1 GEDC\n2 FORM Event-Linked\n2 VERS 5.5.1\n2 XYZ\n0 TRLR";
    let (found, reports) = parse(text.chars());
    assert_eq!(found.unwrap().header.gedcom_version, text_of("5.5.1"));
    assert_eq!(reports.len(), 2);
    assert_eq!(reports[0].scope, Scope::Gedcom);
    assert_eq!(reports[0].anomaly, Anomaly::UnrecognizedForm);
    assert_eq!(reports[0].found, Token::LineValue("Event-Linked".to_string()));
    assert_eq!(reports[1].scope, Scope::Gedcom);
    assert_eq!(reports[1].anomaly, Anomaly::UnhandledTag);
}

#[test]
fn lines_under_an_unknown_line_of_the_header_are_skipped() {
    let text = "0 HEAD
1 XYZ
2 DATE 1 JAN 2020
3 TIME 10:00
1 GEDC
2 ABC
3 VERS 7
2 VERS 5.5.1
0 TRLR";
    let (found, reports) = parse(text.chars());
    let header = found.unwrap().header;
    assert_eq!(header.date, None);
    assert_eq!(header.gedcom_version, text_of("5.5.1"));
    let seen: Vec<(usize, Scope, Anomaly)> =
        reports.iter().map(|r| (r.line, r.scope, r.anomaly)).collect();
    assert_eq!(
        seen,
        vec![(2, Scope::Header, Anomaly::UnhandledTag), (6, Scope::Gedcom, Anomaly::UnhandledTag)]
    );
}

#[test]
fn the_known_form_in_any_case_is_not_reported() {
    for form in ["LINEAGE-LINKED", "lineage-linked", "Lineage-Linked"] {
        let text = format!("0 HEAD\n1 GEDC\n2 FORM {}\n0 TRLR", form);
        let (found, reports) = parse(text.chars());
        assert!(found.is_ok());
        assert!(reports.is_empty());
    }
}

#[test]
fn the_header_ends_at_the_next_record() {
    let text = "0 HEAD\n1 GEDC\n2 VERS 5.5.1\n0 @I1@ INDI\n0 HEAD\n1 CHAR ANSEL\n0 TRLR";
    let data = parse(text.chars()).0.unwrap();
    assert_eq!(data.individuals.len(), 1);
    assert_eq!(data.header.gedcom_version, None);
    assert_eq!(data.header.encoding, text_of("ANSEL"));
}

#[test]
fn a_text_is_parsed_as_its_characters_are() {
    let text = "0 HEAD\n1 XYZ\n0 @I1@ INDI\n1 SEX F\n0 @F1@ FAM\n0 TRLR";
    assert_eq!(parse_text(text), parse(text.chars()));
    let mut parser = Parser::from_text(text);
    let found = parser.parse_record();
    assert_eq!((found, parser.into_diagnostics()), parse_text(text));
    let mut rest = text.chars();
    rest.next();
    rest.next();
    assert_eq!(parse(rest).0.unwrap_err().fault, Fault::MissingLevel);
}

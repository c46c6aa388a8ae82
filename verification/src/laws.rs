//! What holds of the grammar: laws that follow from its definition, stated
//! for every state of a parse and proved.

use crate::diagnostic::{Anomaly, DiagnosticView, Scope};
use crate::grammar::fields::{
    continued, continued_with, is_continuation, parse_gender, take_continued_text, take_line_value,
};
use crate::grammar::records::{
    family_loop, family_with, is_family_part, lemma_parse_family, lemma_parse_individual,
    lemma_record_body, parse_family, parse_record, record_body, record_loop,
    take_pointer, RecordStep,
};
use crate::diagnostic::Fault;
use crate::grammar::records::lemma_parse_header;
use crate::state::{
    has_no_end, has_no_tag, lemma_has_no, lemma_skip_to, lemma_skip_to_scope_end, scope_len,
    ParseState,
};
use crate::tree::GedcomDataView;
use crate::types::individual::IndividualView;
use crate::types::family::FamilyView;
use crate::token::TokenView;
use crate::types::individual::{gender_of, is_gender_code, Gender};
use vstd::prelude::*;

verus! {

/// The codes of a sex: `M` is male, `F` female, `N` nonbinary and `U`
/// unknown, and every other value leaves the sex unknown.
pub proof fn lemma_gender_codes()
    ensures
        gender_of("M"@) == Gender::Male,
        gender_of("F"@) == Gender::Female,
        gender_of("N"@) == Gender::Nonbinary,
        gender_of("U"@) == Gender::Unknown,
        is_gender_code("M"@) && is_gender_code("F"@) && is_gender_code("N"@) && is_gender_code(
            "U"@,
        ),
        forall|value: Seq<char>| !is_gender_code(value) ==> gender_of(value) == Gender::Unknown,
{
    reveal_strlit("M");
    reveal_strlit("F");
    reveal_strlit("N");
    reveal_strlit("U");
    assert("M"@[0] == 'M');
    assert("F"@[0] == 'F');
    assert("N"@[0] == 'N');
    assert("U"@[0] == 'U');
}

/// A `SEX` line with a value gives the sex that the value names, and is
/// reported, in its own line, exactly if the value is no code of a sex. The
/// tag and the value are used up.
pub proof fn lemma_sex_line_with_value(s: ParseState, value: Seq<char>)
    requires
        s.stream.tokens.len() >= 2,
        s.stream.tokens[1] == TokenView::LineValue(value),
    ensures
        parse_gender(s).0 == gender_of(value),
        parse_gender(s).1.stream == s.stream.advance().advance(),
        is_gender_code(value) ==> parse_gender(s).1.diagnostics == s.diagnostics,
        !is_gender_code(value) ==> parse_gender(s).1.diagnostics == s.diagnostics.push(
            DiagnosticView {
                line: s.stream.line,
                scope: Scope::Individual,
                anomaly: Anomaly::UnknownGender,
                found: TokenView::LineValue(value),
            },
        ),
{
    assert(s.stream.advance().tokens[0] == s.stream.tokens[1]);
}

/// A `SEX` line without a value leaves the sex unknown and is reported; the
/// token that stands where the value would be stays the current one.
pub proof fn lemma_sex_line_without_value(s: ParseState)
    requires
        !(s.advance().current() is LineValue),
    ensures
        parse_gender(s).0 == Gender::Unknown,
        parse_gender(s).1.stream == s.stream.advance(),
        parse_gender(s).1.diagnostics == s.diagnostics.push(
            DiagnosticView {
                line: s.stream.advance().line,
                scope: Scope::Individual,
                anomaly: Anomaly::MissingGender,
                found: s.advance().current(),
            },
        ),
{
}

/// The state that a line with a value and one line under it lead to, when
/// the continued text of the first line is read: the five tokens of the two
/// lines are used up, and nothing is reported.
pub open spec fn after_two_lines(s: ParseState) -> ParseState {
    s.advance().advance().advance().advance().advance()
}

/// The tokens of a line with the value `base` and, under it, one line with
/// the tag `tag` and the value `more`, after which the scope of the first
/// line ends.
pub open spec fn two_lines(
    s: ParseState,
    start: u8,
    base: Seq<char>,
    level: u8,
    tag: Seq<char>,
    more: Seq<char>,
) -> bool {
    let tokens = s.stream.tokens;
    &&& tokens.len() >= 5
    &&& tokens[1] == TokenView::LineValue(base)
    &&& tokens[2] == TokenView::Level(level)
    &&& level > start
    &&& tokens[3] == TokenView::Tag(tag)
    &&& tokens[4] == TokenView::LineValue(more)
    &&& (tokens.len() == 5 || tokens[5].closes(start))
}

/// One line under a text adds to it what `continued_with` says.
proof fn lemma_one_line_under(
    s: ParseState,
    start: u8,
    base: Seq<char>,
    level: u8,
    tag: Seq<char>,
    more: Seq<char>,
)
    requires
        two_lines(s, start, base, level, tag, more),
        is_continuation(tag),
    ensures
        take_continued_text(s, start) == (
            continued_with(base, tag, more),
            after_two_lines(s),
        ),
{
    let tokens = s.stream.tokens;
    let s1 = s.advance();
    assert(s1.stream.tokens[0] == tokens[1]);
    let s2 = s1.advance();
    assert(s2.stream.tokens[0] == tokens[2]);
    assert(take_line_value(s) == (base, s2));
    let s3 = s2.advance();
    assert(s3.stream.tokens[0] == tokens[3]);
    assert(s3.stream.tokens[1] == tokens[4]);
    let s4 = s3.advance();
    assert(s4.stream.tokens[0] == tokens[4]);
    let s5 = s4.advance();
    assert(take_line_value(s3) == (more, s5));
    if tokens.len() > 5 {
        assert(s5.stream.tokens[0] == tokens[5]);
    }
    assert(s5.current().closes(start));
    let text = continued_with(base, tag, more);
    assert(continued(s5, text, level, start) == (text, s5));
    assert(continued(s3, base, level, start) == continued(s5, text, level, start));
    assert(continued(s2, base, start, start) == continued(s3, base, level, start));
}

/// A text with one `CONC` line under it is the value of its own line, a
/// space, and the value of the `CONC` line.
pub proof fn lemma_one_conc_line(
    s: ParseState,
    start: u8,
    base: Seq<char>,
    level: u8,
    more: Seq<char>,
)
    requires
        two_lines(s, start, base, level, "CONC"@, more),
    ensures
        take_continued_text(s, start) == (base + seq![' '] + more, after_two_lines(s)),
{
    reveal_strlit("CONC");
    reveal_strlit("CONT");
    assert("CONC"@[3] != "CONT"@[3]);
    lemma_one_line_under(s, start, base, level, "CONC"@, more);
}

/// A text with one `CONT` line under it is the value of its own line, a
/// line feed, and the value of the `CONT` line.
pub proof fn lemma_one_cont_line(
    s: ParseState,
    start: u8,
    base: Seq<char>,
    level: u8,
    more: Seq<char>,
)
    requires
        two_lines(s, start, base, level, "CONT"@, more),
    ensures
        take_continued_text(s, start) == (base + seq!['\n'] + more, after_two_lines(s)),
{
    lemma_one_line_under(s, start, base, level, "CONT"@, more);
}

/// A line with a level, a tag and a value.
pub struct Line {
    pub level: u8,
    pub tag: Seq<char>,
    pub value: Seq<char>,
}

/// The tokens of lines: of each its level, its tag and its value.
pub open spec fn line_tokens(lines: Seq<Line>) -> Seq<TokenView>
    decreases lines.len(),
{
    if lines.len() == 0 {
        Seq::empty()
    } else {
        seq![
            TokenView::Level(lines[0].level),
            TokenView::Tag(lines[0].tag),
            TokenView::LineValue(lines[0].value),
        ] + line_tokens(lines.drop_first())
    }
}

/// The values of the lines that have the tag `tag`, in the order of the
/// lines.
pub open spec fn values_with_tag(lines: Seq<Line>, tag: Seq<char>) -> Seq<Seq<char>>
    decreases lines.len(),
{
    if lines.len() == 0 {
        Seq::empty()
    } else if lines[0].tag == tag {
        seq![lines[0].value] + values_with_tag(lines.drop_first(), tag)
    } else {
        values_with_tag(lines.drop_first(), tag)
    }
}

/// The last of the values, or `before` where there is none.
pub open spec fn last_or(values: Seq<Seq<char>>, before: Option<Seq<char>>) -> Option<Seq<char>> {
    if values.len() > 0 {
        Some(values.last())
    } else {
        before
    }
}

/// Whether every line is a part of a family, under a line at the level
/// `start`: it is deeper than `start` and has the tag `HUSB`, `WIFE` or
/// `CHIL`.
pub open spec fn family_lines(lines: Seq<Line>, start: u8) -> bool {
    forall|i: int|
        0 <= i < lines.len() ==> (#[trigger] lines[i]).level > start && is_family_part(
            lines[i].tag,
        )
}

/// A family with the parts that lines give, one after the other.
pub open spec fn family_with_lines(family: FamilyView, lines: Seq<Line>) -> FamilyView
    decreases lines.len(),
{
    if lines.len() == 0 {
        family
    } else {
        family_with_lines(
            family_with(family, lines[0].tag, lines[0].value),
            lines.drop_first(),
        )
    }
}

/// The lines `HUSB`, `WIFE` and `CHIL` of a family are read one after the
/// other, up to the end of the scope of the family, and nothing is
/// reported.
proof fn lemma_family_loop_lines(
    s: ParseState,
    family: FamilyView,
    cur: u8,
    start: u8,
    lines: Seq<Line>,
    rest: Seq<TokenView>,
)
    requires
        start <= cur,
        family_lines(lines, start),
        s.stream.tokens == line_tokens(lines) + rest,
        rest.len() == 0 || rest[0].closes(start),
    ensures
        family_loop(s, family, cur, start).0 == family_with_lines(family, lines),
        family_loop(s, family, cur, start).1.stream.tokens == rest,
        family_loop(s, family, cur, start).1.diagnostics == s.diagnostics,
    decreases lines.len(),
{
    if lines.len() == 0 {
        assert(s.stream.tokens =~= rest);
    } else {
        let line = lines[0];
        let tail = line_tokens(lines.drop_first()) + rest;
        let tokens = s.stream.tokens;
        assert(tokens[0] == TokenView::Level(line.level));
        assert(tokens[1] == TokenView::Tag(line.tag));
        assert(tokens[2] == TokenView::LineValue(line.value));
        let s1 = s.advance();
        assert(s1.stream.tokens[0] == tokens[1]);
        assert(s1.stream.tokens[1] == tokens[2]);
        let s2 = s1.advance();
        assert(s2.stream.tokens[0] == tokens[2]);
        let s3 = s2.advance();
        assert(s3.stream.tokens =~= tail);
        assert(take_line_value(s1) == (line.value, s3));
        let family2 = family_with(family, line.tag, line.value);
        assert forall|i: int| 0 <= i < lines.drop_first().len() implies (
        #[trigger] lines.drop_first()[i]).level > start && is_family_part(
            lines.drop_first()[i].tag,
        ) by {
            assert(lines.drop_first()[i] == lines[i + 1]);
        }
        lemma_family_loop_lines(s3, family2, line.level, start, lines.drop_first(), rest);
        assert(family_loop(s1, family, line.level, start) == family_loop(
            s3,
            family2,
            line.level,
            start,
        ));
        assert(family_loop(s, family, cur, start) == family_loop(s1, family, line.level, start));
    }
}

/// Of the parts that lines give to a family, the first partner is the value
/// of the last `HUSB` line, the second partner that of the last `WIFE`
/// line, and the children are the values of the `CHIL` lines in their
/// order, after the children the family had. Nothing else changes.
proof fn lemma_family_with_lines(family: FamilyView, lines: Seq<Line>)
    ensures
        family_with_lines(family, lines) == (FamilyView {
            individual1: last_or(values_with_tag(lines, "HUSB"@), family.individual1),
            individual2: last_or(values_with_tag(lines, "WIFE"@), family.individual2),
            children: family.children + values_with_tag(lines, "CHIL"@),
            ..family
        }),
    decreases lines.len(),
{
    reveal_strlit("HUSB");
    reveal_strlit("WIFE");
    reveal_strlit("CHIL");
    assert("HUSB"@[0] != "WIFE"@[0]);
    assert("HUSB"@[0] != "CHIL"@[0]);
    assert("WIFE"@[0] != "CHIL"@[0]);
    if lines.len() == 0 {
        assert(family.children + Seq::<Seq<char>>::empty() =~= family.children);
    } else {
        let line = lines[0];
        let family2 = family_with(family, line.tag, line.value);
        let tail = lines.drop_first();
        lemma_family_with_lines(family2, tail);
        let husbands = values_with_tag(tail, "HUSB"@);
        let wives = values_with_tag(tail, "WIFE"@);
        let children = values_with_tag(tail, "CHIL"@);
        if line.tag == "HUSB"@ {
            assert((seq![line.value] + husbands).last() == if husbands.len() > 0 {
                husbands.last()
            } else {
                line.value
            });
        } else if line.tag == "WIFE"@ {
            assert((seq![line.value] + wives).last() == if wives.len() > 0 {
                wives.last()
            } else {
                line.value
            });
        } else if line.tag == "CHIL"@ {
            assert(family.children.push(line.value) + children =~= family.children + (
            seq![line.value] + children));
        }
    }
}

/// A family record whose lines are `HUSB`, `WIFE` and `CHIL` lines, in any
/// order: the first partner is the value of the last `HUSB` line, the second
/// partner that of the last `WIFE` line, and the children are the values of
/// the `CHIL` lines in their order. The record is read to its end, and
/// nothing is reported.
pub proof fn lemma_family_record(
    s: ParseState,
    start: u8,
    xref: Option<Seq<char>>,
    lines: Seq<Line>,
    rest: Seq<TokenView>,
)
    requires
        family_lines(lines, start),
        s.stream.tokens.len() > 0,
        s.stream.tokens.drop_first() == line_tokens(lines) + rest,
        rest.len() == 0 || rest[0].closes(start),
    ensures
        parse_family(s, start, xref).0 == (FamilyView {
            xref,
            individual1: last_or(values_with_tag(lines, "HUSB"@), None),
            individual2: last_or(values_with_tag(lines, "WIFE"@), None),
            children: values_with_tag(lines, "CHIL"@),
            events: Seq::empty(),
        }),
        parse_family(s, start, xref).1.stream.tokens == rest,
        parse_family(s, start, xref).1.diagnostics == s.diagnostics,
{
    lemma_family_loop_lines(s.advance(), FamilyView::new(xref), start, start, lines, rest);
    lemma_family_with_lines(FamilyView::new(xref), lines);
    assert(Seq::<Seq<char>>::empty() + values_with_tag(lines, "CHIL"@) =~= values_with_tag(
        lines,
        "CHIL"@,
    ));
}

/// A family record with one `HUSB` line, one `WIFE` line and two `CHIL`
/// lines has both partners and two children, whatever the order of the four
/// lines is.
pub proof fn lemma_family_of_four(
    s: ParseState,
    start: u8,
    xref: Option<Seq<char>>,
    lines: Seq<Line>,
    rest: Seq<TokenView>,
)
    requires
        family_lines(lines, start),
        s.stream.tokens.len() > 0,
        s.stream.tokens.drop_first() == line_tokens(lines) + rest,
        rest.len() == 0 || rest[0].closes(start),
        values_with_tag(lines, "HUSB"@).len() == 1,
        values_with_tag(lines, "WIFE"@).len() == 1,
        values_with_tag(lines, "CHIL"@).len() == 2,
    ensures
        parse_family(s, start, xref).0.individual1 == Some(values_with_tag(lines, "HUSB"@)[0]),
        parse_family(s, start, xref).0.individual2 == Some(values_with_tag(lines, "WIFE"@)[0]),
        parse_family(s, start, xref).0.children.len() == 2,
        parse_family(s, start, xref).0.children == values_with_tag(lines, "CHIL"@),
{
    lemma_family_record(s, start, xref, lines, rest);
}

/// The start of a record at the top of a file: its pointer, if it has one,
/// and the token that follows, which is its tag in a record that is in
/// order.
pub struct RecordHead {
    pub xref: Option<Seq<char>>,
    pub tag: TokenView,
}

/// The token at the place `i`, or `EOF` where the tokens end before it.
pub open spec fn token_at(tokens: Seq<TokenView>, i: int) -> TokenView {
    if 0 <= i < tokens.len() {
        tokens[i]
    } else {
        TokenView::EOF
    }
}

/// The start of the record whose level is the first of `tokens`.
pub open spec fn head_at(tokens: Seq<TokenView>) -> RecordHead {
    match token_at(tokens, 1) {
        TokenView::Pointer(xref) => RecordHead { xref: Some(xref), tag: token_at(tokens, 2) },
        other => RecordHead { xref: None, tag: other },
    }
}

/// The records at the top of a file, in their order: one for every level 0
/// among the tokens, up to the record `TRLR`, which ends the file and is not
/// counted.
pub open spec fn top_records(tokens: Seq<TokenView>) -> Seq<RecordHead>
    decreases tokens.len(),
{
    if tokens.len() == 0 {
        Seq::empty()
    } else if tokens[0] == TokenView::Level(0) {
        let head = head_at(tokens);
        if head.tag == TokenView::Tag("TRLR"@) {
            Seq::empty()
        } else {
            seq![head] + top_records(tokens.drop_first())
        }
    } else {
        top_records(tokens.drop_first())
    }
}

/// The pointers of the records with the tag `tag`, in the order of the
/// records.
pub open spec fn xrefs_of(heads: Seq<RecordHead>, tag: Seq<char>) -> Seq<Option<Seq<char>>>
    decreases heads.len(),
{
    if heads.len() == 0 {
        Seq::empty()
    } else if heads[0].tag == TokenView::Tag(tag) {
        seq![heads[0].xref] + xrefs_of(heads.drop_first(), tag)
    } else {
        xrefs_of(heads.drop_first(), tag)
    }
}

/// The pointers of individuals, in their order.
pub open spec fn individual_xrefs(individuals: Seq<IndividualView>) -> Seq<Option<Seq<char>>> {
    Seq::new(individuals.len(), |i: int| individuals[i].xref)
}

/// The pointers of families, in their order.
pub open spec fn family_xrefs(families: Seq<FamilyView>) -> Seq<Option<Seq<char>>> {
    Seq::new(families.len(), |i: int| families[i].xref)
}

/// Tokens that are no level 0 begin no record.
proof fn lemma_top_records_skip(tokens: Seq<TokenView>, k: int)
    requires
        0 <= k <= tokens.len(),
        forall|i: int| 0 <= i < k ==> #[trigger] tokens[i] != TokenView::Level(0),
    ensures
        top_records(tokens) == top_records(tokens.skip(k)),
    decreases k,
{
    if k == 0 {
        assert(tokens.skip(0) =~= tokens);
    } else {
        let tail = tokens.drop_first();
        assert forall|i: int| 0 <= i < k - 1 implies #[trigger] tail[i] != TokenView::Level(0) by {
            assert(tail[i] == tokens[i + 1]);
        }
        lemma_top_records_skip(tail, k - 1);
        assert(tail.skip(k - 1) =~= tokens.skip(k));
    }
}

/// The tags of the records are different words.
proof fn lemma_record_tags()
    ensures
        "HEAD"@ != "FAM"@,
        "HEAD"@ != "INDI"@,
        "HEAD"@ != "TRLR"@,
        "FAM"@ != "INDI"@,
        "FAM"@ != "TRLR"@,
        "INDI"@ != "TRLR"@,
{
    reveal_strlit("HEAD");
    reveal_strlit("FAM");
    reveal_strlit("INDI");
    reveal_strlit("TRLR");
    assert("HEAD"@[0] == 'H');
    assert("FAM"@[0] == 'F');
    assert("INDI"@[0] == 'I');
    assert("TRLR"@[0] == 'T');
}

/// The individuals and the families that the records of a file add to a
/// document are those of the `INDI` and `FAM` records at the top of the
/// file, in the order of the file.
proof fn lemma_record_loop_records(s: ParseState, data: GedcomDataView)
    requires
        s.current().closes(0),
    ensures
        record_loop(s, data).0 matches Ok(found) ==> {
            &&& individual_xrefs(found.individuals) == individual_xrefs(data.individuals)
                + xrefs_of(top_records(s.stream.tokens), "INDI"@)
            &&& family_xrefs(found.families) == family_xrefs(data.families) + xrefs_of(
                top_records(s.stream.tokens),
                "FAM"@,
            )
        },
    decreases s.len(),
{
    lemma_record_tags();
    let tokens = s.stream.tokens;
    match s.current() {
        TokenView::Level(level) => {
            assert(level == 0);
            let s1 = s.advance();
            let (xref, s2) = take_pointer(s1);
            let (step, s3) = record_body(s2, level, xref, data);
            lemma_record_body(s2, level, xref, data);
            let head = head_at(tokens);
            assert(token_at(tokens, 1) == s1.current());
            if s1.current() is Pointer {
                assert(s2.stream.tokens =~= tokens.skip(2));
                assert(token_at(tokens, 2) == s2.current());
            } else {
                assert(s2.stream.tokens =~= tokens.skip(1));
            }
            assert(head == RecordHead { xref, tag: s2.current() });
            match step {
                RecordStep::Next(data2) => {
                    lemma_skip_to(s2.stream, 0);
                    lemma_skip_to_scope_end(s2.stream, 0);
                    let n = scope_len(s2.stream.tokens, 0);
                    let k = tokens.len() - s2.stream.tokens.len() + n;
                    assert(s3.stream.tokens =~= tokens.skip(k));
                    let tail = tokens.drop_first();
                    assert forall|i: int| 0 <= i < k - 1 implies #[trigger] tail[i]
                        != TokenView::Level(0) by {
                        assert(tail[i] == tokens[i + 1]);
                        if i + 1 >= k - n {
                            assert(tokens[i + 1] == s2.stream.tokens[i + 1 - (k - n)]);
                        }
                    }
                    lemma_top_records_skip(tail, k - 1);
                    assert(tail.skip(k - 1) =~= tokens.skip(k));
                    assert(top_records(tokens) == seq![head] + top_records(s3.stream.tokens));
                    let heads = top_records(tokens);
                    assert(heads.drop_first() =~= top_records(s3.stream.tokens));
                    lemma_record_loop_records(s3, data2);
                    if s2.current() is Tag {
                        lemma_parse_family(s2, level, xref);
                        lemma_parse_individual(s2, level, xref);
                    }
                    let more_individuals = xrefs_of(top_records(s3.stream.tokens), "INDI"@);
                    let more_families = xrefs_of(top_records(s3.stream.tokens), "FAM"@);
                    if head.tag == TokenView::Tag("INDI"@) {
                        assert(individual_xrefs(data2.individuals) =~= individual_xrefs(
                            data.individuals,
                        ).push(xref));
                        assert(individual_xrefs(data.individuals).push(xref) + more_individuals
                            =~= individual_xrefs(data.individuals) + (seq![xref]
                            + more_individuals));
                    } else if head.tag == TokenView::Tag("FAM"@) {
                        assert(family_xrefs(data2.families) =~= family_xrefs(data.families).push(
                            xref,
                        ));
                        assert(family_xrefs(data.families).push(xref) + more_families
                            =~= family_xrefs(data.families) + (seq![xref] + more_families));
                    }
                },
                RecordStep::Done(found) => {
                    if found is Ok {
                        assert(head.tag == TokenView::Tag("TRLR"@));
                        assert(individual_xrefs(data.individuals) + Seq::<
                            Option<Seq<char>>,
                        >::empty() =~= individual_xrefs(data.individuals));
                        assert(family_xrefs(data.families) + Seq::<Option<Seq<char>>>::empty()
                            =~= family_xrefs(data.families));
                    }
                },
            }
        },
        _ => {},
    }
}

/// In a file that begins with a record at the level 0 and is parsed to its
/// `TRLR` record, the individuals of the document are the `INDI` records at
/// the top of the file and its families the `FAM` records, as many and in
/// the same order: each has the pointer of its record.
pub proof fn lemma_records_in_order(s: ParseState)
    requires
        s.current() == TokenView::Level(0),
    ensures
        parse_record(s).0 matches Ok(found) ==> {
            &&& individual_xrefs(found.individuals) == xrefs_of(
                top_records(s.stream.tokens),
                "INDI"@,
            )
            &&& family_xrefs(found.families) == xrefs_of(top_records(s.stream.tokens), "FAM"@)
            &&& found.individuals.len() == xrefs_of(top_records(s.stream.tokens), "INDI"@).len()
            &&& found.families.len() == xrefs_of(top_records(s.stream.tokens), "FAM"@).len()
        },
{
    lemma_record_loop_records(s, GedcomDataView::empty());
    let none = Seq::<Option<Seq<char>>>::empty();
    assert(individual_xrefs(GedcomDataView::empty().individuals) =~= none);
    assert(family_xrefs(GedcomDataView::empty().families) =~= none);
    assert(none + xrefs_of(top_records(s.stream.tokens), "INDI"@) =~= xrefs_of(
        top_records(s.stream.tokens),
        "INDI"@,
    ));
    assert(none + xrefs_of(top_records(s.stream.tokens), "FAM"@) =~= xrefs_of(
        top_records(s.stream.tokens),
        "FAM"@,
    ));
}

/// Whether the tokens hold a `TRLR` record at the top of the file: a level
/// 0 with, after its pointer if it has one, the tag `TRLR`.
pub open spec fn has_trailer(tokens: Seq<TokenView>) -> bool
    decreases tokens.len(),
{
    if tokens.len() == 0 {
        false
    } else if tokens[0] == TokenView::Level(0) && head_at(tokens).tag == TokenView::Tag(
        "TRLR"@,
    ) {
        true
    } else {
        has_trailer(tokens.drop_first())
    }
}

/// Tokens that are no level 0 begin no `TRLR` record.
proof fn lemma_has_trailer_skip(tokens: Seq<TokenView>, k: int)
    requires
        0 <= k <= tokens.len(),
        forall|i: int| 0 <= i < k ==> #[trigger] tokens[i] != TokenView::Level(0),
    ensures
        has_trailer(tokens) == has_trailer(tokens.skip(k)),
    decreases k,
{
    if k == 0 {
        assert(tokens.skip(0) =~= tokens);
    } else {
        let tail = tokens.drop_first();
        assert forall|i: int| 0 <= i < k - 1 implies #[trigger] tail[i] != TokenView::Level(0) by {
            assert(tail[i] == tokens[i + 1]);
        }
        lemma_has_trailer_skip(tail, k - 1);
        assert(tail.skip(k - 1) =~= tokens.skip(k));
    }
}

/// Without `CHAN` and `TIME` lines, the records of a file are read to the
/// end exactly if a `TRLR` record is among them, and otherwise a level is
/// missed where the tokens end.
proof fn lemma_record_loop_ends(s: ParseState, data: GedcomDataView)
    requires
        s.current().closes(0),
        has_no_end(s.stream.tokens),
        has_no_tag(s.stream.tokens, "CHAN"@),
        has_no_tag(s.stream.tokens, "TIME"@),
    ensures
        record_loop(s, data).0 is Ok <==> has_trailer(s.stream.tokens),
        record_loop(s, data).0 matches Err(e) ==> e.fault == Fault::MissingLevel,
    decreases s.len(),
{
    lemma_record_tags();
    let tokens = s.stream.tokens;
    match s.current() {
        TokenView::Level(level) => {
            assert(level == 0);
            let s1 = s.advance();
            let (xref, s2) = take_pointer(s1);
            let (step, s3) = record_body(s2, level, xref, data);
            lemma_record_body(s2, level, xref, data);
            lemma_has_no(s.stream, 0, "CHAN"@);
            lemma_has_no(s.stream, 0, "TIME"@);
            lemma_has_no(s2.stream, 0, "CHAN"@);
            lemma_has_no(s2.stream, 0, "TIME"@);
            let head = head_at(tokens);
            assert(token_at(tokens, 1) == s1.current());
            if s1.current() is Pointer {
                assert(s2.stream.tokens =~= tokens.skip(2));
                assert(token_at(tokens, 2) == s2.current());
            } else {
                assert(s2.stream.tokens =~= tokens.skip(1));
            }
            assert(head == RecordHead { xref, tag: s2.current() });
            if s2.current() is Tag {
                lemma_parse_header(s2);
                lemma_parse_individual(s2, level, xref);
            }
            match step {
                RecordStep::Next(data2) => {
                    lemma_skip_to(s2.stream, 0);
                    lemma_skip_to_scope_end(s2.stream, 0);
                    let n = scope_len(s2.stream.tokens, 0);
                    let k = tokens.len() - s2.stream.tokens.len() + n;
                    assert(s3.stream.tokens =~= tokens.skip(k));
                    let tail = tokens.drop_first();
                    assert forall|i: int| 0 <= i < k - 1 implies #[trigger] tail[i]
                        != TokenView::Level(0) by {
                        assert(tail[i] == tokens[i + 1]);
                        if i + 1 >= k - n {
                            assert(tokens[i + 1] == s2.stream.tokens[i + 1 - (k - n)]);
                        }
                    }
                    lemma_has_trailer_skip(tail, k - 1);
                    assert(tail.skip(k - 1) =~= tokens.skip(k));
                    assert forall|i: int| 0 <= i < s3.stream.tokens.len() implies !(
                    #[trigger] s3.stream.tokens[i] is EOF) && s3.stream.tokens[i]
                        != TokenView::Tag("CHAN"@) && s3.stream.tokens[i] != TokenView::Tag(
                        "TIME"@,
                    ) by {
                        assert(s3.stream.tokens[i] == tokens[i + k]);
                    }
                    lemma_record_loop_ends(s3, data2);
                },
                RecordStep::Done(found) => {},
            }
        },
        _ => {
            if tokens.len() > 0 {
                assert(!(tokens[0] is EOF));
            }
        },
    }
}

/// A file without `CHAN` and `TIME` lines that begins with a record at the
/// level 0 is parsed to its end exactly if it has a `TRLR` record at the
/// top; whatever else is wrong in it is reported and got over. Without that
/// record the parse ends with the error that a level is missing.
pub proof fn lemma_parse_ends_with_trailer(s: ParseState)
    requires
        s.current() == TokenView::Level(0),
        has_no_end(s.stream.tokens),
        has_no_tag(s.stream.tokens, "CHAN"@),
        has_no_tag(s.stream.tokens, "TIME"@),
    ensures
        parse_record(s).0 is Ok <==> has_trailer(s.stream.tokens),
        parse_record(s).0 matches Err(e) ==> e.fault == Fault::MissingLevel,
{
    lemma_record_loop_ends(s, GedcomDataView::empty());
}

} // verus!

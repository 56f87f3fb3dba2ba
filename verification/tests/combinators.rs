use grlx_lsp::grammar::{parse_current, parse_include_line};
use nom::bytes::complete::tag;
use nom::character::complete::{alphanumeric1, char, multispace1, not_line_ending};
use nom::combinator::opt;
use nom::multi::count;
use nom::sequence::{preceded, terminated};
use nom::IResult;

/// The grammar of a line, written with parser combinators.
fn line(input: &str) -> IResult<&str, &str> {
    preceded(count(char(' '), 2), preceded(tag("-"), preceded(multispace1, not_line_ending)))(input)
}

/// The grammar of the shorthand, written with parser combinators.
fn shorthand(input: &str) -> IResult<&str, Option<&str>> {
    opt(preceded(char('.'), terminated(alphanumeric1, not_line_ending)))(input)
}

const LINES: [&str; 24] = [
    "",
    " ",
    "  ",
    "  -",
    "  - ",
    "  -  ",
    "  - .apache",
    "  - ../apache",
    "  - a b c",
    "  -\t\tx y ",
    "  -x",
    " - x",
    "   - x",
    "- x",
    "  + x",
    "  -- x",
    "  - - x",
    "include:",
    "steps:",
    "  - .",
    "  - ..",
    "  - näme/ß",
    "  - .a.b/c",
    "\t- x",
];

const REFERENCES: [&str; 16] = [
    "",
    ".",
    "..",
    ".a",
    ".apache",
    "../apache",
    ".apache.conf",
    ".a b",
    ".a/b",
    "._a",
    ". a",
    "a.b",
    ".9lives",
    ".Web2 # two",
    ".é",
    ".aé",
];

#[test]
fn line_grammar_agrees_with_the_combinators() {
    for input in LINES {
        let theirs = line(input).ok().map(|(_, reference)| reference.to_string());
        assert_eq!(parse_include_line(input), theirs, "on {:?}", input);
    }
}

#[test]
fn shorthand_agrees_with_the_combinators() {
    for input in REFERENCES {
        let theirs = shorthand(input).unwrap().1.map(|module| module.to_string());
        assert_eq!(parse_current(input), theirs, "on {:?}", input);
    }
}

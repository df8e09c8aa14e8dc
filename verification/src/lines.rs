//! The line-by-line notation: what one line of it says, read from its text
//! alone.
use crate::identifier::{is_valid_identifier, valid_identifier};
use crate::node::{attributes_view, copy_attributes, copy_strings, strings_view};
use regex::Regex;
use vstd::prelude::*;
use vstd::string::StrSliceExecFns;

verus! {

// Whether `char::is_whitespace` of std holds of the character.
pub uninterp spec fn white_space(c: char) -> bool;

// What `Regex::is_match` of the regex crate gives for the pattern and the
// text, or nothing where `Regex::new` refuses the pattern. It is spoken of
// for the four patterns of this notation only.
pub uninterp spec fn regex_match(pattern: Seq<char>, text: Seq<char>) -> Option<bool>;

// For each match that `Regex::captures_iter` of the regex crate yields for
// the pattern in the text, in order, what the two named groups matched, or
// nothing where `Regex::new` refuses the pattern.
pub uninterp spec fn regex_groups(
    pattern: Seq<char>,
    text: Seq<char>,
    first: Seq<char>,
    second: Seq<char>,
) -> Option<Seq<(Seq<char>, Seq<char>)>>;

// For each match that `Regex::captures_iter` of the regex crate yields for
// the pattern in the text, in order, the text of the whole match, or nothing
// where `Regex::new` refuses the pattern.
pub uninterp spec fn regex_matches(pattern: Seq<char>, text: Seq<char>) -> Option<
    Seq<Seq<char>>,
>;

/// The pairs that a call for groups returned, as the model has them.
pub open spec fn groups_view(groups: Option<Vec<(String, String)>>) -> Option<
    Seq<(Seq<char>, Seq<char>)>,
> {
    match groups {
        Some(pairs) => Some(attributes_view(pairs@)),
        None => None,
    }
}

/// The texts that a call for matches returned, as the model has them.
pub open spec fn matches_view(matches: Option<Vec<String>>) -> Option<Seq<Seq<char>>> {
    match matches {
        Some(texts) => Some(strings_view(texts@)),
        None => None,
    }
}

/// The pattern of a line that is a tag.
pub open spec fn tag_pattern() -> Seq<char> {
    r#"^[a-zA-Z_]\w*(\s+\w+="[^"]*")*$"#@
}

/// The pattern of one attribute, with the groups `name` and `value`.
pub open spec fn attribute_pattern() -> Seq<char> {
    r#"(?P<name>\w+)="(?P<value>[^"]+)""#@
}

/// The pattern of the arguments of a call.
pub open spec fn call_pattern() -> Seq<char> {
    r#"((".*?"|\$[a-zA-Z_][a-zA-Z_0-9]*),\s*)*(".*?"|\$[a-zA-Z_][a-zA-Z_0-9]*)?,?"#@
}

/// The pattern of one argument of a call.
pub open spec fn argument_pattern() -> Seq<char> {
    r#"".*?"|\$[a-zA-Z_][a-zA-Z_0-9]*"#@
}

/// The pattern is one of the four that this notation is read with.
pub open spec fn known_pattern(pattern: Seq<char>) -> bool {
    ||| pattern == tag_pattern()
    ||| pattern == attribute_pattern()
    ||| pattern == call_pattern()
    ||| pattern == argument_pattern()
}

/// `char::is_whitespace` of std. Nothing is claimed of it but that the same
/// character gives the same answer.
#[verifier::external_body]
fn is_white_space(c: char) -> (white: bool)
    ensures
        white == white_space(c),
{
    c.is_whitespace()
}

/// `Regex::new` and `Regex::is_match` of the regex crate: whether the
/// pattern matches anywhere in the text. Nothing is claimed but that, for
/// each of the four patterns of this notation, the same text gives the same
/// answer, which is none where `Regex::new` refuses the pattern.
#[verifier::external_body]
fn pattern_matches(pattern: &str, text: &str) -> (matched: Option<bool>)
    requires
        known_pattern(pattern@),
    ensures
        matched == regex_match(pattern@, text@),
{
    match Regex::new(pattern) {
        Ok(regex) => Some(regex.is_match(text)),
        Err(_) => None,
    }
}

/// `Regex::new`, `Regex::captures_iter` and `Captures::name` of the regex
/// crate: for each match in turn, the texts of the groups `first` and
/// `second`, empty for a group that the pattern lacks or that took no part
/// in the match. Nothing is claimed but that, for each of the four patterns
/// of this notation, the same text and group names give the same list,
/// which is none where `Regex::new` refuses the pattern.
#[verifier::external_body]
fn named_groups(pattern: &str, text: &str, first: &str, second: &str) -> (groups: Option<
    Vec<(String, String)>,
>)
    requires
        known_pattern(pattern@),
    ensures
        groups_view(groups) == regex_groups(pattern@, text@, first@, second@),
{
    match Regex::new(pattern) {
        Ok(regex) => Some(
            regex.captures_iter(text).map(
                |found|
                    (
                        found.name(first).map_or("", |part| part.as_str()).to_string(),
                        found.name(second).map_or("", |part| part.as_str()).to_string(),
                    ),
            ).collect(),
        ),
        Err(_) => None,
    }
}

/// `Regex::new`, `Regex::captures_iter` and `Captures::get` of the regex
/// crate: for each match in turn, the text of the whole match, which is
/// group 0. Nothing is claimed but that, for each of the four patterns of
/// this notation, the same text gives the same list, which is none where
/// `Regex::new` refuses the pattern.
#[verifier::external_body]
fn whole_matches(pattern: &str, text: &str) -> (matches: Option<Vec<String>>)
    requires
        known_pattern(pattern@),
    ensures
        matches_view(matches) == regex_matches(pattern@, text@),
{
    match Regex::new(pattern) {
        Ok(regex) => Some(
            regex.captures_iter(text).map(
                |found| found.get(0).map_or("", |part| part.as_str()).to_string(),
            ).collect(),
        ),
        Err(_) => None,
    }
}

/// The indices `from` and `to` mark a part of the text.
pub open spec fn in_text(text: Seq<char>, from: int, to: int) -> bool {
    0 <= from <= to <= text.len()
}

/// The first index from `from` and before `to` at which the text holds `c`,
/// or `to` where it holds none there.
pub open spec fn find_char(text: Seq<char>, c: char, from: int, to: int) -> int
    decreases to - from,
{
    if !in_text(text, from, to) || from == to {
        to
    } else if text[from] == c {
        from
    } else {
        find_char(text, c, from + 1, to)
    }
}

/// The first index from `from` and before `to` at which the text holds no
/// whitespace, or `to`.
pub open spec fn skip_space(text: Seq<char>, from: int, to: int) -> int
    decreases to - from,
{
    if !in_text(text, from, to) || from == to {
        to
    } else if !white_space(text[from]) {
        from
    } else {
        skip_space(text, from + 1, to)
    }
}

/// The first index from `from` and before `to` at which the text holds
/// whitespace, or `to`.
pub open spec fn find_space(text: Seq<char>, from: int, to: int) -> int
    decreases to - from,
{
    if !in_text(text, from, to) || from == to {
        to
    } else if white_space(text[from]) {
        from
    } else {
        find_space(text, from + 1, to)
    }
}

/// The index behind the last character from `from` and before `to` that is
/// no whitespace, or `from`.
pub open spec fn back_space(text: Seq<char>, from: int, to: int) -> int
    decreases to - from,
{
    if !in_text(text, from, to) || from == to {
        from
    } else if !white_space(text[to - 1]) {
        to
    } else {
        back_space(text, from, to - 1)
    }
}

/// The part of the text from `from` to `to` without the whitespace at its
/// start and at its end.
pub open spec fn trimmed_part(text: Seq<char>, from: int, to: int) -> Seq<char> {
    let start = skip_space(text, from, to);
    text.subrange(start, back_space(text, start, to))
}

/// The parts between the commas of the text from `from` to `to`, each
/// without the whitespace at its start and at its end. A text without a
/// comma is one part, the empty text too.
pub open spec fn trimmed_pieces(text: Seq<char>, from: int, to: int) -> Seq<Seq<char>>
    decreases to - from,
{
    let comma = find_char(text, ',', from, to);
    if !in_text(text, from, to) || comma < from || comma >= to {
        seq![trimmed_part(text, from, to)]
    } else {
        seq![trimmed_part(text, from, comma)] + trimmed_pieces(text, comma + 1, to)
    }
}

/// The number of spaces that the text starts with.
pub open spec fn leading_spaces(text: Seq<char>) -> nat
    decreases text.len(),
{
    if text.len() > 0 && text[0] == ' ' {
        1 + leading_spaces(text.drop_first())
    } else {
        0
    }
}

/// The line holds nothing but whitespace, or its first character that is no
/// whitespace is `#`: it is empty or a comment.
pub open spec fn skipped_line(text: Seq<char>) -> bool {
    let start = skip_space(text, 0, text.len() as int);
    start >= text.len() || text[start] == '#'
}

fn chars_of(text: &str) -> (chars: Vec<char>)
    ensures
        chars@ == text@,
{
    let length = text.unicode_len();
    let mut chars: Vec<char> = Vec::new();
    let mut i: usize = 0;
    while i < length
        invariant
            i <= length,
            length == text@.len(),
            chars@ == text@.take(i as int),
        decreases length - i,
    {
        chars.push(text.get_char(i));
        assert(chars@ =~= text@.take(i + 1));
        i += 1;
    }
    assert(text@.take(length as int) =~= text@);
    chars
}

fn find_char_in(chars: &Vec<char>, c: char, from: usize, to: usize) -> (at: usize)
    requires
        in_text(chars@, from as int, to as int),
    ensures
        at == find_char(chars@, c, from as int, to as int),
        from <= at <= to,
{
    let mut i = from;
    while i < to
        invariant
            from <= i <= to <= chars@.len(),
            find_char(chars@, c, from as int, to as int) == find_char(chars@, c, i as int, to as int),
        decreases to - i,
    {
        if chars[i] == c {
            return i;
        }
        i += 1;
    }
    i
}

fn skip_space_in(chars: &Vec<char>, from: usize, to: usize) -> (at: usize)
    requires
        in_text(chars@, from as int, to as int),
    ensures
        at == skip_space(chars@, from as int, to as int),
        from <= at <= to,
{
    let mut i = from;
    while i < to
        invariant
            from <= i <= to <= chars@.len(),
            skip_space(chars@, from as int, to as int) == skip_space(chars@, i as int, to as int),
        decreases to - i,
    {
        if !is_white_space(chars[i]) {
            return i;
        }
        i += 1;
    }
    i
}

fn find_space_in(chars: &Vec<char>, from: usize, to: usize) -> (at: usize)
    requires
        in_text(chars@, from as int, to as int),
    ensures
        at == find_space(chars@, from as int, to as int),
        from <= at <= to,
{
    let mut i = from;
    while i < to
        invariant
            from <= i <= to <= chars@.len(),
            find_space(chars@, from as int, to as int) == find_space(chars@, i as int, to as int),
        decreases to - i,
    {
        if is_white_space(chars[i]) {
            return i;
        }
        i += 1;
    }
    i
}

fn back_space_in(chars: &Vec<char>, from: usize, to: usize) -> (at: usize)
    requires
        in_text(chars@, from as int, to as int),
    ensures
        at == back_space(chars@, from as int, to as int),
        from <= at <= to,
{
    let mut i = to;
    while i > from
        invariant
            from <= i <= to <= chars@.len(),
            back_space(chars@, from as int, to as int) == back_space(chars@, from as int, i as int),
        decreases i - from,
    {
        if !is_white_space(chars[i - 1]) {
            return i;
        }
        i -= 1;
    }
    i
}

fn part_of(line: &str, from: usize, to: usize) -> (part: String)
    requires
        in_text(line@, from as int, to as int),
    ensures
        part@ == line@.subrange(from as int, to as int),
{
    line.substring_char(from, to).to_owned()
}

fn trimmed_part_of(line: &str, chars: &Vec<char>, from: usize, to: usize) -> (part: String)
    requires
        chars@ == line@,
        in_text(chars@, from as int, to as int),
    ensures
        part@ == trimmed_part(line@, from as int, to as int),
{
    let start = skip_space_in(chars, from, to);
    let end = back_space_in(chars, start, to);
    part_of(line, start, end)
}

fn trimmed_pieces_of(line: &str, chars: &Vec<char>, from: usize, to: usize) -> (pieces: Vec<String>)
    requires
        chars@ == line@,
        in_text(chars@, from as int, to as int),
    ensures
        strings_view(pieces@) == trimmed_pieces(line@, from as int, to as int),
{
    let mut pieces: Vec<String> = Vec::new();
    let mut current = from;
    assert(strings_view(pieces@) =~= Seq::empty());
    loop
        invariant
            chars@ == line@,
            from <= current <= to <= chars@.len(),
            strings_view(pieces@) + trimmed_pieces(line@, current as int, to as int)
                == trimmed_pieces(line@, from as int, to as int),
        decreases to - current,
    {
        let comma = find_char_in(chars, ',', current, to);
        let ghost before = pieces@;
        if comma >= to {
            let piece = trimmed_part_of(line, chars, current, to);
            pieces.push(piece);
            assert(strings_view(pieces@) =~= strings_view(before) + seq![piece@]);
            return pieces;
        }
        let piece = trimmed_part_of(line, chars, current, comma);
        pieces.push(piece);
        proof {
            assert(strings_view(pieces@) =~= strings_view(before) + seq![piece@]);
            assert(strings_view(before) + (seq![piece@] + trimmed_pieces(
                line@,
                comma + 1,
                to as int,
            )) =~= (strings_view(before) + seq![piece@]) + trimmed_pieces(
                line@,
                comma + 1,
                to as int,
            ));
        }
        current = comma + 1;
    }
}

/// The level of a line: one more than a quarter, rounded down, of the number
/// of spaces that it starts with.
pub fn indent_level(line: &str) -> (level: usize)
    ensures
        level == leading_spaces(line@) / 4 + 1,
{
    let chars = chars_of(line);
    let mut i: usize = 0;
    assert(line@.skip(0) =~= line@);
    while i < chars.len() && chars[i] == ' '
        invariant
            i <= chars@.len(),
            chars@ == line@,
            leading_spaces(line@) == i + leading_spaces(line@.skip(i as int)),
        decreases chars.len() - i,
    {
        proof {
            assert(line@.skip(i as int).drop_first() =~= line@.skip(i + 1));
        }
        i += 1;
    }
    proof {
        if i < chars@.len() {
            assert(line@.skip(i as int)[0] == line@[i as int]);
        }
        assert(leading_spaces(line@.skip(i as int)) == 0);
    }
    i / 4 + 1
}

/// Whether a line is passed over: it is empty but for whitespace, or it is a
/// comment.
pub fn is_skipped_line(line: &str) -> (skipped: bool)
    ensures
        skipped == skipped_line(line@),
{
    let chars = chars_of(line);
    let start = skip_space_in(&chars, 0, chars.len());
    start >= chars.len() || chars[start] == '#'
}

/// Model of a `LineKind`.
pub enum LineKindView {
    Definition { name: Seq<char>, parameters: Seq<Seq<char>> },
    Text { markup: Seq<char> },
    Tag { name: Seq<char>, attributes: Seq<(Seq<char>, Seq<char>)> },
    Reference { name: Seq<char>, arguments: Result<Seq<Seq<char>>, Seq<char>> },
}

/// What a line says.
#[derive(Debug, PartialEq, Eq)]
pub enum LineKind {
    /// The head of a definition, which ends in `=`: the name and, for a
    /// function, the names of its parameters.
    Definition { name: String, parameters: Vec<String> },
    /// A string: what stands between its quotes.
    Text { markup: String },
    /// A tag with its attributes, each a name and a value.
    Tag { name: String, attributes: Vec<(String, String)> },
    /// A reference, `$name` or `$name(arguments)`. `arguments` holds the
    /// arguments as they are written, or the message for a call that is not
    /// well formed; a reference to a variable or to a parameter does not
    /// look at it.
    Reference { name: String, arguments: Result<Vec<String>, String> },
}

impl View for LineKind {
    type V = LineKindView;

    open spec fn view(&self) -> LineKindView {
        match *self {
            LineKind::Definition { name, parameters } => LineKindView::Definition {
                name: name@,
                parameters: strings_view(parameters@),
            },
            LineKind::Text { markup } => LineKindView::Text { markup: markup@ },
            LineKind::Tag { name, attributes } => LineKindView::Tag {
                name: name@,
                attributes: attributes_view(attributes@),
            },
            LineKind::Reference { name, arguments } => LineKindView::Reference {
                name: name@,
                arguments: match arguments {
                    Ok(texts) => Ok(strings_view(texts@)),
                    Err(message) => Err(message@),
                },
            },
        }
    }
}

/// What a classification returned, as the model has it.
pub open spec fn classified(kind: Result<LineKind, String>) -> Result<LineKindView, Seq<char>> {
    match kind {
        Ok(kind) => Ok(kind@),
        Err(message) => Err(message@),
    }
}

/// The first word of a line: its characters from the first that is no
/// whitespace up to the next whitespace.
pub open spec fn first_word(raw: Seq<char>) -> Seq<char> {
    let start = skip_space(raw, 0, raw.len() as int);
    raw.subrange(start, find_space(raw, start, raw.len() as int))
}

/// What follows the tag's name in a line that is a tag: the line without as
/// many characters at its start as the first word has, and without the
/// whitespace around what is left.
pub open spec fn tag_rest(raw: Seq<char>) -> Seq<char> {
    trimmed_part(raw, first_word(raw).len() as int, raw.len() as int)
}

/// What stands between the first `(` of a line and the next `)`, or the end
/// of the line where there is none. Empty for a line without `(`.
pub open spec fn call_text(raw: Seq<char>) -> Seq<char> {
    let open = find_char(raw, '(', 0, raw.len() as int);
    let from = if open < raw.len() {
        open + 1
    } else {
        raw.len() as int
    };
    raw.subrange(from, find_char(raw, ')', from, raw.len() as int))
}

/// Model of `LineFacts`.
pub struct LineFactsView {
    pub tag: Option<bool>,
    pub attributes: Option<Seq<(Seq<char>, Seq<char>)>>,
    pub call: Option<bool>,
    pub arguments: Option<Seq<Seq<char>>>,
}

/// What the patterns say of a line: whether it matches the pattern of a
/// tag, the attributes found behind its first word, whether what stands in
/// its brackets matches the pattern of a call's arguments, and the
/// arguments found there. Each is missing where the pattern is refused.
#[derive(Debug, PartialEq, Eq)]
pub struct LineFacts {
    pub tag: Option<bool>,
    pub attributes: Option<Vec<(String, String)>>,
    pub call: Option<bool>,
    pub arguments: Option<Vec<String>>,
}

impl View for LineFacts {
    type V = LineFactsView;

    open spec fn view(&self) -> LineFactsView {
        LineFactsView {
            tag: self.tag,
            attributes: groups_view(self.attributes),
            call: self.call,
            arguments: matches_view(self.arguments),
        }
    }
}

/// What the patterns say of the line `raw`.
pub open spec fn line_facts(raw: Seq<char>) -> LineFactsView {
    LineFactsView {
        tag: regex_match(tag_pattern(), raw),
        attributes: regex_groups(attribute_pattern(), tag_rest(raw), "name"@, "value"@),
        call: regex_match(call_pattern(), call_text(raw)),
        arguments: regex_matches(argument_pattern(), call_text(raw)),
    }
}

/// The message for a head that is neither a name nor a name with
/// parameters in brackets.
pub open spec fn no_definition() -> Seq<char> {
    "not a valid variable or function definition"@
}

/// What the head of a definition says. The head is the line without its
/// last character, the `=`, and without the whitespace around the rest.
///
/// A head that is one word and a name defines a variable. Any other head
/// with `(` and `)` in it defines a function: its name is what stands
/// before the first `(`, and its parameters stand, with commas between
/// them, from there to the next `)`. It is no definition where the name is
/// not one, where no `)` stands between the first `(` and the next, or
/// where something other than whitespace follows that `)` before the next
/// `)` or `(`.
pub open spec fn definition_kind(raw: Seq<char>) -> Result<LineKindView, Seq<char>> {
    let start = skip_space(raw, 0, raw.len() - 1);
    let end = back_space(raw, start, raw.len() - 1);
    let head = raw.subrange(start, end);
    let open = find_char(raw, '(', start, end);
    let next_open = find_char(raw, '(', open + 1, end);
    let close = find_char(raw, ')', open + 1, next_open);
    let next_close = find_char(raw, ')', close + 1, next_open);
    if start < end && find_space(raw, start, end) == end && valid_identifier(head) {
        Ok(LineKindView::Definition { name: head, parameters: Seq::empty() })
    } else if open >= end || find_char(raw, ')', start, end) >= end {
        Err(no_definition())
    } else if !valid_identifier(raw.subrange(start, open)) {
        Err(no_definition())
    } else if close >= next_open {
        Err(no_definition())
    } else if skip_space(raw, close + 1, next_close) < next_close {
        Err(no_definition())
    } else {
        Ok(
            LineKindView::Definition {
                name: raw.subrange(start, open),
                parameters: trimmed_pieces(raw, open + 1, close),
            },
        )
    }
}

/// The arguments of a call as they are written, or the message for a line
/// that is no well-formed call: one without `(`, one with more than one,
/// and one whose text in the brackets does not match the pattern of a
/// call's arguments.
pub open spec fn call_arguments(raw: Seq<char>, facts: LineFactsView) -> Result<
    Seq<Seq<char>>,
    Seq<char>,
> {
    let open = find_char(raw, '(', 0, raw.len() as int);
    if open >= raw.len() || find_char(raw, '(', open + 1, raw.len() as int) < raw.len() {
        Err("invalid function call"@)
    } else if facts.call != Some(true) {
        Err("invalid function call"@)
    } else {
        Ok(
            match facts.arguments {
                Some(texts) => texts,
                None => Seq::empty(),
            },
        )
    }
}

/// What a line says, given what the patterns say of it. The line is taken
/// as it is, so it should come without the whitespace around it.
///
/// A line that ends in `=` is the head of a definition. A line of two or
/// more characters that starts and ends with `"` is a string. A line that
/// matches the pattern of a tag is a tag, named by its first word. A line
/// that starts with `$` and has a name between that and its first `(`, or
/// its end, is a reference. The kinds are tried in this order, and a line of
/// none of them gives a message.
pub open spec fn line_kind_with(raw: Seq<char>, facts: LineFactsView) -> Result<
    LineKindView,
    Seq<char>,
> {
    let length = raw.len() as int;
    let open = find_char(raw, '(', 0, length);
    if length > 0 && raw[length - 1] == '=' {
        definition_kind(raw)
    } else if length >= 2 && raw[0] == '"' && raw[length - 1] == '"' {
        Ok(LineKindView::Text { markup: raw.subrange(1, length - 1) })
    } else if facts.tag == Some(true) {
        Ok(
            LineKindView::Tag {
                name: first_word(raw),
                attributes: match facts.attributes {
                    Some(pairs) => pairs,
                    None => Seq::empty(),
                },
            },
        )
    } else if length > 0 && raw[0] == '$' && valid_identifier(raw.subrange(1, open)) {
        Ok(
            LineKindView::Reference {
                name: trimmed_part(raw, 1, open),
                arguments: call_arguments(raw, facts),
            },
        )
    } else {
        Err("Not sure what this line is"@)
    }
}

/// What a line says.
pub open spec fn line_kind(raw: Seq<char>) -> Result<LineKindView, Seq<char>> {
    line_kind_with(raw, line_facts(raw))
}

fn classify_definition(raw_line: &str, chars: &Vec<char>) -> (kind: Result<LineKind, String>)
    requires
        chars@ == raw_line@,
        chars@.len() > 0,
    ensures
        classified(kind) == definition_kind(raw_line@),
{
    let last = chars.len() - 1;
    let start = skip_space_in(chars, 0, last);
    let end = back_space_in(chars, start, last);
    if start < end && find_space_in(chars, start, end) == end {
        let head = raw_line.substring_char(start, end);
        if is_valid_identifier(head) {
            let parameters: Vec<String> = Vec::new();
            assert(strings_view(parameters@) =~= Seq::empty());
            return Ok(LineKind::Definition { name: head.to_owned(), parameters });
        }
    }
    let open = find_char_in(chars, '(', start, end);
    if open >= end || find_char_in(chars, ')', start, end) >= end {
        return Err("not a valid variable or function definition".to_owned());
    }
    if !is_valid_identifier(raw_line.substring_char(start, open)) {
        return Err("not a valid variable or function definition".to_owned());
    }
    let next_open = find_char_in(chars, '(', open + 1, end);
    let close = find_char_in(chars, ')', open + 1, next_open);
    if close >= next_open {
        return Err("not a valid variable or function definition".to_owned());
    }
    let next_close = find_char_in(chars, ')', close + 1, next_open);
    if skip_space_in(chars, close + 1, next_close) < next_close {
        return Err("not a valid variable or function definition".to_owned());
    }
    Ok(
        LineKind::Definition {
            name: part_of(raw_line, start, open),
            parameters: trimmed_pieces_of(raw_line, chars, open + 1, close),
        },
    )
}

/// Says what a line is, from its text and from what the patterns say of it.
pub fn classify_with(raw_line: &str, facts: &LineFacts) -> (kind: Result<LineKind, String>)
    ensures
        classified(kind) == line_kind_with(raw_line@, facts@),
{
    let chars = chars_of(raw_line);
    let length = chars.len();
    if length > 0 && chars[length - 1] == '=' {
        return classify_definition(raw_line, &chars);
    }
    if length >= 2 && chars[0] == '"' && chars[length - 1] == '"' {
        return Ok(LineKind::Text { markup: part_of(raw_line, 1, length - 1) });
    }
    let is_tag = match facts.tag {
        Some(matched) => matched,
        None => false,
    };
    if is_tag {
        let start = skip_space_in(&chars, 0, length);
        let end = find_space_in(&chars, start, length);
        let attributes = match &facts.attributes {
            Some(pairs) => copy_attributes(pairs),
            None => Vec::new(),
        };
        proof {
            if facts.attributes is None {
                assert(attributes_view(attributes@) =~= Seq::empty());
            }
        }
        return Ok(LineKind::Tag { name: part_of(raw_line, start, end), attributes });
    }
    if length > 0 && chars[0] == '$' {
        let open = find_char_in(&chars, '(', 1, length);
        assert(open == find_char(chars@, '(', 0, length as int));
        if is_valid_identifier(raw_line.substring_char(1, open)) {
            let name = trimmed_part_of(raw_line, &chars, 1, open);
            let well_formed = open < length && find_char_in(&chars, '(', open + 1, length)
                >= length;
            let matched = match facts.call {
                Some(matched) => matched,
                None => false,
            };
            let arguments = if !well_formed || !matched {
                Err("invalid function call".to_owned())
            } else {
                match &facts.arguments {
                    Some(texts) => Ok(copy_strings(texts)),
                    None => {
                        let none: Vec<String> = Vec::new();
                        assert(strings_view(none@) =~= Seq::empty());
                        Ok(none)
                    },
                }
            };
            return Ok(LineKind::Reference { name, arguments });
        }
    }
    Err("Not sure what this line is".to_owned())
}

/// Asks the patterns what they say of a line.
pub fn find_line_facts(raw_line: &str) -> (facts: LineFacts)
    ensures
        facts@ == line_facts(raw_line@),
{
    let chars = chars_of(raw_line);
    let length = chars.len();
    let start = skip_space_in(&chars, 0, length);
    let word = find_space_in(&chars, start, length) - start;
    let rest = trimmed_part_of(raw_line, &chars, word, length);
    let open = find_char_in(&chars, '(', 0, length);
    let from = if open < length {
        open + 1
    } else {
        length
    };
    let close = find_char_in(&chars, ')', from, length);
    let inside = part_of(raw_line, from, close);
    LineFacts {
        tag: pattern_matches(r#"^[a-zA-Z_]\w*(\s+\w+="[^"]*")*$"#, raw_line),
        attributes: named_groups(
            r#"(?P<name>\w+)="(?P<value>[^"]+)""#,
            rest.as_str(),
            "name",
            "value",
        ),
        call: pattern_matches(
            r#"((".*?"|\$[a-zA-Z_][a-zA-Z_0-9]*),\s*)*(".*?"|\$[a-zA-Z_][a-zA-Z_0-9]*)?,?"#,
            inside.as_str(),
        ),
        arguments: whole_matches(r#"".*?"|\$[a-zA-Z_][a-zA-Z_0-9]*"#, inside.as_str()),
    }
}

/// Says what a line is. The line is taken as it is, so it should come
/// without the whitespace around it.
pub fn classify_line(raw_line: &str) -> (kind: Result<LineKind, String>)
    ensures
        classified(kind) == line_kind(raw_line@),
{
    let facts = find_line_facts(raw_line);
    classify_with(raw_line, &facts)
}

} // verus!

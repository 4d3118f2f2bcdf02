//! The value syntax as mathematics: what each production reads from a
//! sequence of characters at a given position, and where it stops.
//!
//! ```text
//! value     := bool | string | number | container | reference
//! string    := '"' ( '\' escape | other )* '"'
//! number    := a run of digits and '.', with at most one '.'
//! container := '{' ( entry ( ',' entry )* )? ','? '}'
//! entry     := value | identifier '=' value | '[' value ']' '=' value
//! reference := '@0x' anything ':' value
//! ```
//!
//! A position is an index into the sequence. A production that succeeds
//! gives what it read and the position behind it.

use vstd::prelude::*;
use crate::chars::{
    is_digit, is_ident_char, is_letter, is_number_char, is_space, letter, unescape,
};
use crate::error::{ParseError, Separator};
use crate::value::{is_number, Tree};

verus! {

/// Whether `tok` stands in `s` at position `i`.
pub open spec fn looking_at(s: Seq<char>, i: int, tok: Seq<char>) -> bool {
    0 <= i && i + tok.len() <= s.len() && s.subrange(i, i + tok.len()) == tok
}

/// The character of `s` at `i`, or NUL where `i` is no index of `s`.
pub open spec fn char_at(s: Seq<char>, i: int) -> char {
    if 0 <= i < s.len() {
        s[i]
    } else {
        '\0'
    }
}

/// A token of one character stands at `i` exactly where `i` holds that
/// character.
pub proof fn looking_at_char(s: Seq<char>, i: int, c: char)
    ensures
        looking_at(s, i, seq![c]) <==> 0 <= i < s.len() && s[i] == c,
{
    if 0 <= i < s.len() {
        assert(s.subrange(i, i + 1)[0] == s[i]);
        if s[i] == c {
            assert(s.subrange(i, i + 1) =~= seq![c]);
        }
    }
}

/// A token that stands at `i` begins with the character at `i`.
pub proof fn token_begins(s: Seq<char>, i: int, tok: Seq<char>)
    requires
        looking_at(s, i, tok),
        tok.len() > 0,
    ensures
        0 <= i < s.len(),
        s[i] == tok[0],
{
    assert(s.subrange(i, i + tok.len())[0] == s[i]);
}

/// The first position from `i` on that holds no whitespace.
pub open spec fn skip_spaces(s: Seq<char>, i: int) -> int
    decreases s.len() - i,
{
    if 0 <= i < s.len() && is_space(s[i]) {
        skip_spaces(s, i + 1)
    } else {
        i
    }
}

/// The first position from `i` on that holds no letter and no digit.
pub open spec fn ident_end(s: Seq<char>, i: int) -> int
    decreases s.len() - i,
{
    if 0 <= i < s.len() && is_ident_char(s[i]) {
        ident_end(s, i + 1)
    } else {
        i
    }
}

/// The first position from `i` on that holds no digit and no decimal point.
pub open spec fn number_end(s: Seq<char>, i: int) -> int
    decreases s.len() - i,
{
    if 0 <= i < s.len() && is_number_char(s[i]) {
        number_end(s, i + 1)
    } else {
        i
    }
}

/// The position behind the first `:` from `i` on, or the end of `s` where
/// there is none.
pub open spec fn reference_end(s: Seq<char>, i: int) -> int
    decreases s.len() - i,
{
    if 0 <= i < s.len() {
        if s[i] == ':' {
            i + 1
        } else {
            reference_end(s, i + 1)
        }
    } else {
        i
    }
}

/// The number that stands at `i`: the longest run of digits and decimal
/// points, as it is written.
pub open spec fn number_at(s: Seq<char>, i: int) -> Result<(Seq<char>, int), ParseError> {
    let end = number_end(s, i);
    if 0 <= i <= end <= s.len() && is_number(s.subrange(i, end)) {
        Ok((s.subrange(i, end), end))
    } else {
        Err(ParseError::InvalidNumber)
    }
}

/// `r` with `head` put before the text that it read.
pub open spec fn prefixed(head: Seq<char>, r: Result<(Seq<char>, int), ParseError>) -> Result<
    (Seq<char>, int),
    ParseError,
> {
    match r {
        Ok((text, end)) => Ok((head + text, end)),
        Err(e) => Err(e),
    }
}

/// Putting `a` before what had `b` put before it is putting `a + b` before.
pub proof fn prefixed_twice(a: Seq<char>, b: Seq<char>, r: Result<(Seq<char>, int), ParseError>)
    ensures
        prefixed(a, prefixed(b, r)) == prefixed(a + b, r),
{
    if let Ok((text, end)) = r {
        assert(a + (b + text) =~= (a + b) + text);
    }
}

/// The rest of a string whose opening quote stands before `i`: the decoded
/// text up to the closing quote, and the position behind that quote.
pub open spec fn string_at(s: Seq<char>, i: int) -> Result<(Seq<char>, int), ParseError>
    decreases s.len() - i,
{
    if !(0 <= i < s.len()) {
        Err(ParseError::UnterminatedString)
    } else if s[i] == '"' {
        Ok((Seq::empty(), i + 1))
    } else if s[i] == '\\' {
        match unescape(char_at(s, i + 1)) {
            Some(c) => prefixed(seq![c], string_at(s, i + 2)),
            None => Err(ParseError::UnknownEscapeSequence),
        }
    } else {
        prefixed(seq![s[i]], string_at(s, i + 1))
    }
}

/// The shape of a container, fixed by its first entry.
#[derive(Debug, Clone, Copy, PartialEq, Eq, Structural)]
pub enum Shape {
    /// No entry was read yet.
    Undetermined,
    /// The entries are bare values.
    List,
    /// The entries are pairs of a key and a value.
    Dict,
}

/// The form of one entry of a container, told by its first character.
#[derive(Debug, Clone, Copy, PartialEq, Eq, Structural)]
pub enum EntryKind {
    /// A bare value.
    Item,
    /// `identifier = value`.
    Field,
    /// `[key] = value`.
    Keyed,
}

/// The form of the entry that begins with `c`.
pub open spec fn entry_kind(c: char) -> EntryKind {
    if c == '[' {
        EntryKind::Keyed
    } else if is_letter(c) {
        EntryKind::Field
    } else {
        EntryKind::Item
    }
}

/// Tells the form of the entry that begins with `c`.
pub fn classify(c: char) -> (kind: EntryKind)
    ensures
        kind == entry_kind(c),
{
    if c == '[' {
        EntryKind::Keyed
    } else if letter(c) {
        EntryKind::Field
    } else {
        EntryKind::Item
    }
}

/// The shape that an entry of form `kind` gives its container.
pub open spec fn shape_of(kind: EntryKind) -> Shape {
    match kind {
        EntryKind::Item => Shape::List,
        EntryKind::Field => Shape::Dict,
        EntryKind::Keyed => Shape::Dict,
    }
}

/// The shape of a container of shape `shape` after one more entry of form
/// `kind`: the first entry fixes it, every later one has to agree.
pub open spec fn lock(shape: Shape, kind: EntryKind) -> Result<Shape, ParseError> {
    if shape == Shape::Undetermined || shape == shape_of(kind) {
        Ok(shape_of(kind))
    } else {
        Err(ParseError::MixedContainerShape)
    }
}

impl Shape {
    /// The shape after one more entry of form `kind`, or the failure where
    /// the entry does not agree with the shape.
    pub fn locked(self, kind: EntryKind) -> (r: Result<Shape, ParseError>)
        ensures
            r == lock(self, kind),
    {
        let wanted = match kind {
            EntryKind::Item => Shape::List,
            EntryKind::Field => Shape::Dict,
            EntryKind::Keyed => Shape::Dict,
        };
        match (self, wanted) {
            (Shape::Undetermined, _) => Ok(wanted),
            (Shape::List, Shape::List) => Ok(wanted),
            (Shape::Dict, Shape::Dict) => Ok(wanted),
            _ => Err(ParseError::MixedContainerShape),
        }
    }
}

/// The value that a closed container of shape `shape` is. A container
/// without entries is a list.
pub open spec fn container(shape: Shape, items: Seq<Tree>, pairs: Seq<(Tree, Tree)>) -> Tree {
    if shape == Shape::Dict {
        Tree::Dict(pairs)
    } else {
        Tree::List(items)
    }
}

/// The value that stands at `i`, after any whitespace.
pub open spec fn value_at(s: Seq<char>, i: int) -> Result<(Tree, int), ParseError>
    decreases s.len() - i, 0nat,
    via value_at_terminates
{
    let j = skip_spaces(s, i);
    if !(0 <= i <= s.len()) {
        Err(ParseError::ExpectedValue)
    } else if looking_at(s, j, seq!['{']) {
        entries_at(s, j + 1, true, Shape::Undetermined, Seq::empty(), Seq::empty())
    } else if looking_at(s, j, seq!['"']) {
        match string_at(s, j + 1) {
            Ok((text, end)) => Ok((Tree::String(text), end)),
            Err(e) => Err(e),
        }
    } else if is_digit(char_at(s, j)) {
        match number_at(s, j) {
            Ok((text, end)) => Ok((Tree::Number(text), end)),
            Err(e) => Err(e),
        }
    } else if looking_at(s, j, seq!['t', 'r', 'u', 'e']) {
        Ok((Tree::Bool(true), j + 4))
    } else if looking_at(s, j, seq!['f', 'a', 'l', 's', 'e']) {
        Ok((Tree::Bool(false), j + 5))
    } else if looking_at(s, j, seq!['@', '0', 'x']) {
        value_at(s, reference_end(s, j + 3))
    } else {
        Err(ParseError::ExpectedValue)
    }
}

/// The rest of a container from `i` on, where `first` says whether no entry
/// was read yet, `shape` is the shape that the entries so far have fixed,
/// and `items` and `pairs` are those entries.
///
/// A success that a value reports without having moved forward counts as a
/// failure here; [`value_at_moves_on`] shows that there is none.
pub open spec fn entries_at(
    s: Seq<char>,
    i: int,
    first: bool,
    shape: Shape,
    items: Seq<Tree>,
    pairs: Seq<(Tree, Tree)>,
) -> Result<(Tree, int), ParseError>
    decreases s.len() - i, 1nat,
    via entries_at_terminates
{
    let comma = skip_spaces(s, i);
    let has_comma = looking_at(s, comma, seq![',']);
    let k = skip_spaces(
        s,
        if has_comma {
            comma + 1
        } else {
            comma
        },
    );
    let kind = entry_kind(char_at(s, k));
    if !(0 <= i <= s.len()) {
        Err(ParseError::ExpectedValue)
    } else if first && has_comma {
        Err(ParseError::LeadingSeparator)
    } else if looking_at(s, k, seq!['}']) {
        Ok((container(shape, items, pairs), k + 1))
    } else if !first && !has_comma {
        Err(ParseError::MissingSeparator(Separator::Comma))
    } else if lock(shape, kind) is Err {
        Err(ParseError::MixedContainerShape)
    } else if kind == EntryKind::Item {
        match value_at(s, k) {
            Ok((item, end)) => if k < end <= s.len() {
                entries_at(s, end, false, Shape::List, items.push(item), pairs)
            } else {
                Err(ParseError::ExpectedValue)
            },
            Err(e) => Err(e),
        }
    } else {
        match key_at(s, k, kind) {
            Ok((key, eq)) => if k < eq <= s.len() {
                match value_at(s, eq) {
                    Ok((value, end)) => if eq < end <= s.len() {
                        entries_at(s, end, false, Shape::Dict, items, pairs.push((key, value)))
                    } else {
                        Err(ParseError::ExpectedValue)
                    },
                    Err(e) => Err(e),
                }
            } else {
                Err(ParseError::ExpectedValue)
            },
            Err(e) => Err(e),
        }
    }
}

/// The key of the entry of form `kind` that begins at `k`, up to and with
/// its `=`: an identifier, or a value in square brackets.
pub open spec fn key_at(s: Seq<char>, k: int, kind: EntryKind) -> Result<(Tree, int), ParseError>
    decreases s.len() - k, 0nat,
    via key_at_terminates
{
    if !(0 <= k < s.len()) {
        Err(ParseError::ExpectedValue)
    } else if kind == EntryKind::Keyed {
        match value_at(s, k + 1) {
            Ok((key, end)) => {
                let close = skip_spaces(s, end);
                let eq = skip_spaces(s, close + 1);
                if !looking_at(s, close, seq![']']) {
                    Err(ParseError::MissingSeparator(Separator::Bracket))
                } else if !looking_at(s, eq, seq!['=']) {
                    Err(ParseError::MissingSeparator(Separator::Equals))
                } else {
                    Ok((key, eq + 1))
                }
            },
            Err(e) => Err(e),
        }
    } else {
        let end = ident_end(s, k);
        let eq = skip_spaces(s, end);
        if !looking_at(s, eq, seq!['=']) {
            Err(ParseError::MissingSeparator(Separator::Equals))
        } else {
            Ok((Tree::String(s.subrange(k, end)), eq + 1))
        }
    }
}

/// Skipping whitespace moves forward, and never past the end.
pub proof fn skip_spaces_bounds(s: Seq<char>, i: int)
    requires
        0 <= i <= s.len(),
    ensures
        i <= skip_spaces(s, i) <= s.len(),
    decreases s.len() - i,
{
    if i < s.len() && is_space(s[i]) {
        skip_spaces_bounds(s, i + 1);
    }
}

/// An identifier ends at or behind its start, and never past the end.
pub proof fn ident_end_bounds(s: Seq<char>, i: int)
    requires
        0 <= i <= s.len(),
    ensures
        i <= ident_end(s, i) <= s.len(),
    decreases s.len() - i,
{
    if i < s.len() && is_ident_char(s[i]) {
        ident_end_bounds(s, i + 1);
    }
}

/// A run of digits and decimal points ends at or behind its start, and
/// never past the end.
pub proof fn number_end_bounds(s: Seq<char>, i: int)
    requires
        0 <= i <= s.len(),
    ensures
        i <= number_end(s, i) <= s.len(),
    decreases s.len() - i,
{
    if i < s.len() && is_number_char(s[i]) {
        number_end_bounds(s, i + 1);
    }
}

/// A string that closes ends behind its start, and never past the end.
pub proof fn string_at_moves_on(s: Seq<char>, i: int)
    ensures
        string_at(s, i) matches Ok((_, end)) ==> i < end <= s.len(),
    decreases s.len() - i,
{
    if 0 <= i < s.len() && s[i] != '"' {
        if s[i] == '\\' {
            if unescape(char_at(s, i + 1)) is Some {
                string_at_moves_on(s, i + 2);
            }
        } else {
            string_at_moves_on(s, i + 1);
        }
    }
}

/// Dropping a reference moves forward, and never past the end.
pub proof fn reference_end_bounds(s: Seq<char>, i: int)
    requires
        0 <= i <= s.len(),
    ensures
        i <= reference_end(s, i) <= s.len(),
    decreases s.len() - i,
{
    if i < s.len() && s[i] != ':' {
        reference_end_bounds(s, i + 1);
    }
}

#[via_fn]
proof fn value_at_terminates(s: Seq<char>, i: int) {
    if 0 <= i <= s.len() {
        skip_spaces_bounds(s, i);
        let j = skip_spaces(s, i);
        if looking_at(s, j, seq!['@', '0', 'x']) {
            reference_end_bounds(s, j + 3);
        }
    }
}

#[via_fn]
proof fn entries_at_terminates(
    s: Seq<char>,
    i: int,
    first: bool,
    shape: Shape,
    items: Seq<Tree>,
    pairs: Seq<(Tree, Tree)>,
) {
    if 0 <= i <= s.len() {
        skip_spaces_bounds(s, i);
        let comma = skip_spaces(s, i);
        if looking_at(s, comma, seq![',']) {
            skip_spaces_bounds(s, comma + 1);
        } else {
            skip_spaces_bounds(s, comma);
        }
    }
}

#[via_fn]
proof fn key_at_terminates(s: Seq<char>, k: int, kind: EntryKind) {
}

/// A value that parses ends behind its start, and never past the end.
pub proof fn value_at_moves_on(s: Seq<char>, i: int)
    ensures
        value_at(s, i) matches Ok((_, end)) ==> i < end <= s.len(),
    decreases s.len() - i, 0nat,
{
    if 0 <= i <= s.len() {
        skip_spaces_bounds(s, i);
        let j = skip_spaces(s, i);
        if looking_at(s, j, seq!['{']) {
            entries_at_moves_on(s, j + 1, true, Shape::Undetermined, Seq::empty(), Seq::empty());
        } else if looking_at(s, j, seq!['"']) {
            string_at_moves_on(s, j + 1);
        } else if is_digit(char_at(s, j)) {
        } else if looking_at(s, j, seq!['t', 'r', 'u', 'e']) {
        } else if looking_at(s, j, seq!['f', 'a', 'l', 's', 'e']) {
        } else if looking_at(s, j, seq!['@', '0', 'x']) {
            reference_end_bounds(s, j + 3);
            value_at_moves_on(s, reference_end(s, j + 3));
        }
    }
}

/// A container that closes ends behind the position from which its rest
/// was read, and never past the end.
pub proof fn entries_at_moves_on(
    s: Seq<char>,
    i: int,
    first: bool,
    shape: Shape,
    items: Seq<Tree>,
    pairs: Seq<(Tree, Tree)>,
)
    ensures
        entries_at(s, i, first, shape, items, pairs) matches Ok((_, end)) ==> i < end <= s.len(),
    decreases s.len() - i, 1nat,
{
    if 0 <= i <= s.len() {
        skip_spaces_bounds(s, i);
        let comma = skip_spaces(s, i);
        let has_comma = looking_at(s, comma, seq![',']);
        let from = if has_comma {
            comma + 1
        } else {
            comma
        };
        skip_spaces_bounds(s, from);
        let k = skip_spaces(s, from);
        let kind = entry_kind(char_at(s, k));
        if first && has_comma {
        } else if looking_at(s, k, seq!['}']) {
        } else if !first && !has_comma {
        } else if lock(shape, kind) is Err {
        } else if kind == EntryKind::Item {
            if let Ok((item, end)) = value_at(s, k) {
                if k < end <= s.len() {
                    entries_at_moves_on(s, end, false, Shape::List, items.push(item), pairs);
                }
            }
        } else {
            if let Ok((key, eq)) = key_at(s, k, kind) {
                if k < eq <= s.len() {
                    if let Ok((value, end)) = value_at(s, eq) {
                        if eq < end <= s.len() {
                            entries_at_moves_on(
                                s,
                                end,
                                false,
                                Shape::Dict,
                                items,
                                pairs.push((key, value)),
                            );
                        }
                    }
                }
            }
        }
    }
}

/// A key that parses ends behind its start, and never past the end.
pub proof fn key_at_moves_on(s: Seq<char>, k: int, kind: EntryKind)
    ensures
        key_at(s, k, kind) matches Ok((_, eq)) ==> k < eq <= s.len(),
{
    if 0 <= k < s.len() {
        if kind == EntryKind::Keyed {
            value_at_moves_on(s, k + 1);
            if let Ok((key, end)) = value_at(s, k + 1) {
                skip_spaces_bounds(s, end);
                if looking_at(s, skip_spaces(s, end), seq![']']) {
                    skip_spaces_bounds(s, skip_spaces(s, end) + 1);
                }
            }
        } else {
            ident_end_bounds(s, k);
            skip_spaces_bounds(s, ident_end(s, k));
        }
    }
}

} // verus!

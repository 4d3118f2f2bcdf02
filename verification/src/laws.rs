//! What holds of every parse, stated over the grammar and proved.

use vstd::prelude::*;
use crate::chars::unescape;
use crate::error::ParseError;
use crate::grammar::{
    char_at, entries_at, entry_kind, ident_end, key_at, lock, looking_at, number_at, number_end,
    prefixed,
    reference_end, reference_end_bounds, shape_of, skip_spaces, skip_spaces_bounds, string_at,
    token_begins, value_at, EntryKind, Shape,
};
use crate::parser::is_value;
use crate::chars::{is_digit, is_ident_char, is_number_char, is_space};
use crate::value::{dots, Tree, Value};

verus! {

/// Two parses of one text from one position agree: both give values with
/// the same model and stop at the same position, or both fail in the same
/// way.
pub proof fn parsing_is_deterministic(
    s: Seq<char>,
    i: int,
    first: Result<Value, ParseError>,
    first_cursor: int,
    second: Result<Value, ParseError>,
    second_cursor: int,
)
    requires
        is_value(first, first_cursor, value_at(s, i)),
        is_value(second, second_cursor, value_at(s, i)),
    ensures
        first is Ok <==> second is Ok,
        first is Ok ==> first->Ok_0@ == second->Ok_0@ && first_cursor == second_cursor,
        first is Err ==> first->Err_0 == second->Err_0,
{
}

/// Once an entry has fixed the shape of a container, a later entry of the
/// other shape makes the container fail as mixed, whatever stands behind
/// it.
pub proof fn shape_is_locked(
    s: Seq<char>,
    i: int,
    shape: Shape,
    items: Seq<Tree>,
    pairs: Seq<(Tree, Tree)>,
)
    requires
        0 <= i <= s.len(),
        shape != Shape::Undetermined,
        looking_at(s, skip_spaces(s, i), seq![',']),
        !looking_at(s, skip_spaces(s, skip_spaces(s, i) + 1), seq!['}']),
        shape_of(entry_kind(char_at(s, skip_spaces(s, skip_spaces(s, i) + 1)))) != shape,
    ensures
        entries_at(s, i, false, shape, items, pairs) == Err::<(Tree, int), ParseError>(
            ParseError::MixedContainerShape,
        ),
{
}

/// The four escapes stand for a backslash, a line feed, a carriage return
/// and a tab, and no other character behind a backslash is an escape.
pub proof fn escapes_are_four(c: char)
    ensures
        unescape('\\') == Some('\\'),
        unescape('n') == Some('\n'),
        unescape('r') == Some('\r'),
        unescape('t') == Some('\t'),
        c != '\\' && c != 'n' && c != 'r' && c != 't' ==> unescape(c) is None,
{
}

/// Inside a string an escape gives exactly the character that it stands
/// for, and the string goes on behind it.
pub proof fn escape_is_decoded(s: Seq<char>, i: int)
    requires
        0 <= i < s.len(),
        s[i] == '\\',
        unescape(char_at(s, i + 1)) is Some,
    ensures
        string_at(s, i) == prefixed(seq![unescape(char_at(s, i + 1))->0], string_at(s, i + 2)),
{
}

/// Inside a string a backslash before any other character, or at the end
/// of the text, makes the string fail.
pub proof fn unknown_escape_fails(s: Seq<char>, i: int)
    requires
        0 <= i < s.len(),
        s[i] == '\\',
        unescape(char_at(s, i + 1)) is None,
    ensures
        string_at(s, i) == Err::<(Seq<char>, int), ParseError>(
            ParseError::UnknownEscapeSequence,
        ),
{
}

/// A run of digits and decimal points with more than one decimal point is
/// no number, and no value where a value begins with it.
pub proof fn two_points_fail(s: Seq<char>, i: int)
    requires
        0 <= i <= s.len(),
        dots(s.subrange(i, number_end(s, i))) >= 2,
    ensures
        number_at(s, i) == Err::<(Seq<char>, int), ParseError>(ParseError::InvalidNumber),
        is_digit(char_at(s, i)) ==> value_at(s, i) == Err::<(Tree, int), ParseError>(
            ParseError::InvalidNumber,
        ),
{
    if is_digit(char_at(s, i)) {
        assert(skip_spaces(s, i) == i);
        if looking_at(s, i, seq!['{']) {
            token_begins(s, i, seq!['{']);
        }
        if looking_at(s, i, seq!['"']) {
            token_begins(s, i, seq!['"']);
        }
    }
}

/// How many entries a container holds; a scalar holds none.
pub open spec fn entry_count(t: Tree) -> nat {
    match t {
        Tree::List(items) => items.len(),
        Tree::Dict(pairs) => pairs.len(),
        _ => 0,
    }
}

/// The position behind the entry that begins at `k`, where there is one.
pub open spec fn entry_end(s: Seq<char>, k: int) -> Option<int> {
    let kind = entry_kind(char_at(s, k));
    if kind == EntryKind::Item {
        match value_at(s, k) {
            Ok((_, end)) => Some(end),
            Err(_) => None,
        }
    } else {
        match key_at(s, k, kind) {
            Ok((_, eq)) => match value_at(s, eq) {
                Ok((_, end)) => Some(end),
                Err(_) => None,
            },
            Err(_) => None,
        }
    }
}

/// How many commas separate entries in the rest of a container from `i`
/// on: the commas that an entry follows. A comma before the closing brace
/// separates nothing and is not counted.
pub open spec fn separators(s: Seq<char>, i: int) -> nat
    decreases s.len() - i,
    via separators_terminates
{
    let comma = skip_spaces(s, i);
    let has_comma = looking_at(s, comma, seq![',']);
    let k = skip_spaces(
        s,
        if has_comma {
            comma + 1
        } else {
            comma
        },
    );
    if !(0 <= i <= s.len()) || looking_at(s, k, seq!['}']) {
        0
    } else {
        match entry_end(s, k) {
            Some(end) => if k < end <= s.len() {
                separators(s, end) + if has_comma {
                    1nat
                } else {
                    0nat
                }
            } else {
                0
            },
            None => 0,
        }
    }
}

#[via_fn]
proof fn separators_terminates(s: Seq<char>, i: int) {
    if 0 <= i <= s.len() {
        skip_spaces_bounds(s, i);
        let comma = skip_spaces(s, i);
        if looking_at(s, comma, seq![',']) {
            skip_spaces_bounds(s, comma + 1);
        } else {
            skip_spaces_bounds(s, comma);
        }
    }
}

/// Whether the rest of a container from `i` on is its closing brace alone.
pub open spec fn closes_at_once(s: Seq<char>, i: int) -> bool {
    looking_at(s, skip_spaces(s, skip_spaces(s, i)), seq!['}'])
}

/// The entries of a container that closes, counted from any state of the
/// parse: those read so far, one for each comma that separates entries from
/// here on, and the first one where none was read yet.
pub proof fn entries_are_counted_from(
    s: Seq<char>,
    i: int,
    first: bool,
    shape: Shape,
    items: Seq<Tree>,
    pairs: Seq<(Tree, Tree)>,
)
    requires
        shape == Shape::Undetermined ==> items.len() == 0 && pairs.len() == 0,
    ensures
        entries_at(s, i, first, shape, items, pairs) matches Ok((tree, _)) ==> entry_count(tree)
            == (match shape {
            Shape::Undetermined => 0,
            Shape::List => items.len(),
            Shape::Dict => pairs.len(),
        }) + if first {
            if closes_at_once(s, i) {
                0
            } else {
                separators(s, i) + 1
            }
        } else {
            separators(s, i)
        },
    decreases s.len() - i,
{
    if 0 <= i <= s.len() {
        skip_spaces_bounds(s, i);
        let comma = skip_spaces(s, i);
        let has_comma = looking_at(s, comma, seq![',']);
        let from = if has_comma {
            comma + 1
        } else {
            comma
        };
        skip_spaces_bounds(s, from);
        let k = skip_spaces(s, from);
        let kind = entry_kind(char_at(s, k));
        if first && has_comma {
        } else if looking_at(s, k, seq!['}']) {
        } else if !first && !has_comma {
        } else if lock(shape, kind) is Err {
        } else if kind == EntryKind::Item {
            if let Ok((item, end)) = value_at(s, k) {
                if k < end <= s.len() {
                    entries_are_counted_from(s, end, false, Shape::List, items.push(item), pairs);
                }
            }
        } else {
            if let Ok((key, eq)) = key_at(s, k, kind) {
                if k < eq <= s.len() {
                    if let Ok((value, end)) = value_at(s, eq) {
                        if eq < end <= s.len() {
                            entries_are_counted_from(
                                s,
                                end,
                                false,
                                Shape::Dict,
                                items,
                                pairs.push((key, value)),
                            );
                        }
                    }
                }
            }
        }
    }
}

/// A container that closes holds one entry more than commas separate its
/// entries, and none where nothing stands between its braces. One comma
/// before the closing brace is allowed and counts for nothing.
pub proof fn entries_are_counted(s: Seq<char>, i: int)
    ensures
        entries_at(s, i, true, Shape::Undetermined, Seq::empty(), Seq::empty()) matches Ok(
            (tree, _),
        ) ==> entry_count(tree) == if closes_at_once(s, i) {
            0
        } else {
            separators(s, i) + 1
        },
{
    entries_are_counted_from(s, i, true, Shape::Undetermined, Seq::empty(), Seq::empty());
}

/// Skipping whitespace stops at the first character that is none: all that
/// is skipped is whitespace, and what follows is not, or is the end.
pub proof fn skipped_is_whitespace(s: Seq<char>, i: int)
    requires
        0 <= i <= s.len(),
    ensures
        i <= skip_spaces(s, i) <= s.len(),
        forall|k: int| i <= k < skip_spaces(s, i) ==> is_space(#[trigger] s[k]),
        !is_space(char_at(s, skip_spaces(s, i))),
    decreases s.len() - i,
{
    if i < s.len() && is_space(s[i]) {
        skipped_is_whitespace(s, i + 1);
    }
}

/// An identifier is the longest run of letters and digits: it holds nothing
/// else, and what follows it is neither, or is the end.
pub proof fn identifier_is_longest_run(s: Seq<char>, i: int)
    requires
        0 <= i <= s.len(),
    ensures
        i <= ident_end(s, i) <= s.len(),
        forall|k: int| i <= k < ident_end(s, i) ==> is_ident_char(#[trigger] s[k]),
        !is_ident_char(char_at(s, ident_end(s, i))),
    decreases s.len() - i,
{
    if i < s.len() && is_ident_char(s[i]) {
        identifier_is_longest_run(s, i + 1);
    }
}

/// A number is read from the longest run of digits and decimal points: the
/// run holds nothing else, and what follows it is neither, or is the end.
pub proof fn number_is_longest_run(s: Seq<char>, i: int)
    requires
        0 <= i <= s.len(),
    ensures
        i <= number_end(s, i) <= s.len(),
        forall|k: int| i <= k < number_end(s, i) ==> is_number_char(#[trigger] s[k]),
        !is_number_char(char_at(s, number_end(s, i))),
    decreases s.len() - i,
{
    if i < s.len() && is_number_char(s[i]) {
        number_is_longest_run(s, i + 1);
    }
}

/// A reference ends behind its first colon: no colon stands before that
/// one, and where there is no colon at all the reference is the whole rest
/// of the text.
pub proof fn reference_ends_at_first_colon(s: Seq<char>, i: int)
    requires
        0 <= i <= s.len(),
    ensures
        i <= reference_end(s, i) <= s.len(),
        forall|k: int| i <= k < reference_end(s, i) - 1 ==> #[trigger] s[k] != ':',
        reference_end(s, i) > i && s[reference_end(s, i) - 1] != ':' ==> reference_end(s, i)
            == s.len(),
        reference_end(s, i) < s.len() ==> s[reference_end(s, i) - 1] == ':',
    decreases s.len() - i,
{
    if i < s.len() && s[i] != ':' {
        reference_ends_at_first_colon(s, i + 1);
    }
}

/// Every value that parses is well formed: each number in it is written
/// in digits and decimal points, with a digit and at most one decimal
/// point.
pub proof fn parsed_values_are_well_formed(s: Seq<char>, i: int)
    ensures
        value_at(s, i) matches Ok((tree, _)) ==> tree.well_formed(),
    decreases s.len() - i, 0nat,
{
    if 0 <= i <= s.len() {
        skip_spaces_bounds(s, i);
        let j = skip_spaces(s, i);
        if looking_at(s, j, seq!['{']) {
            parsed_containers_are_well_formed(
                s,
                j + 1,
                true,
                Shape::Undetermined,
                Seq::empty(),
                Seq::empty(),
            );
        } else if looking_at(s, j, seq!['"']) {
        } else if is_digit(char_at(s, j)) {
            number_is_longest_run(s, j);
        } else if looking_at(s, j, seq!['t', 'r', 'u', 'e']) {
        } else if looking_at(s, j, seq!['f', 'a', 'l', 's', 'e']) {
        } else if looking_at(s, j, seq!['@', '0', 'x']) {
            reference_end_bounds(s, j + 3);
            parsed_values_are_well_formed(s, reference_end(s, j + 3));
        }
    }
}

/// Every container that closes is well formed, where the entries read so
/// far are.
pub proof fn parsed_containers_are_well_formed(
    s: Seq<char>,
    i: int,
    first: bool,
    shape: Shape,
    items: Seq<Tree>,
    pairs: Seq<(Tree, Tree)>,
)
    requires
        forall|n: int| 0 <= n < items.len() ==> (#[trigger] items[n]).well_formed(),
        forall|n: int|
            0 <= n < pairs.len() ==> (#[trigger] pairs[n]).0.well_formed()
                && pairs[n].1.well_formed(),
    ensures
        entries_at(s, i, first, shape, items, pairs) matches Ok((tree, _)) ==> tree.well_formed(),
    decreases s.len() - i, 1nat,
{
    if 0 <= i <= s.len() {
        skip_spaces_bounds(s, i);
        let comma = skip_spaces(s, i);
        let has_comma = looking_at(s, comma, seq![',']);
        let from = if has_comma {
            comma + 1
        } else {
            comma
        };
        skip_spaces_bounds(s, from);
        let k = skip_spaces(s, from);
        let kind = entry_kind(char_at(s, k));
        if first && has_comma {
        } else if looking_at(s, k, seq!['}']) {
        } else if !first && !has_comma {
        } else if lock(shape, kind) is Err {
        } else if kind == EntryKind::Item {
            parsed_values_are_well_formed(s, k);
            if let Ok((item, end)) = value_at(s, k) {
                if k < end <= s.len() {
                    let more = items.push(item);
                    assert forall|n: int| 0 <= n < more.len() implies (#[trigger] more[n]).well_formed() by {
                        if n < items.len() {
                            assert(more[n] == items[n]);
                        }
                    }
                    parsed_containers_are_well_formed(
                        s,
                        end,
                        false,
                        Shape::List,
                        items.push(item),
                        pairs,
                    );
                }
            }
        } else {
            if let Ok((key, eq)) = key_at(s, k, kind) {
                if kind == EntryKind::Keyed {
                    parsed_values_are_well_formed(s, k + 1);
                }
                if k < eq <= s.len() {
                    parsed_values_are_well_formed(s, eq);
                    if let Ok((value, end)) = value_at(s, eq) {
                        if eq < end <= s.len() {
                            let more = pairs.push((key, value));
                            assert forall|n: int| 0 <= n < more.len() implies (#[trigger] more[n]).0.well_formed()
                                && more[n].1.well_formed() by {
                                if n < pairs.len() {
                                    assert(more[n] == pairs[n]);
                                }
                            }
                            parsed_containers_are_well_formed(
                                s,
                                end,
                                false,
                                Shape::Dict,
                                items,
                                pairs.push((key, value)),
                            );
                        }
                    }
                }
            }
        }
    }
}

} // verus!

//! A parse reads forward only: what stands before the position from which
//! a production reads has no part in what it gives.

use vstd::prelude::*;
use crate::chars::{is_digit, is_ident_char, is_number_char, is_space, unescape};
use crate::error::ParseError;
use crate::grammar::{
    char_at, entries_at, entry_kind, ident_end, ident_end_bounds, key_at, lock, looking_at,
    number_at, number_end, number_end_bounds, reference_end, reference_end_bounds, skip_spaces,
    skip_spaces_bounds, string_at, token_begins, value_at, value_at_moves_on, EntryKind, Shape,
};
use crate::value::Tree;

verus! {

/// `r` with the position at which it ends moved on by `d`.
pub open spec fn shifted<T>(r: Result<(T, int), ParseError>, d: int) -> Result<(T, int), ParseError> {
    match r {
        Ok((value, end)) => Ok((value, end + d)),
        Err(e) => Err(e),
    }
}

/// The text of `s` from `d` on.
pub open spec fn rest(s: Seq<char>, d: int) -> Seq<char> {
    s.subrange(d, s.len() as int)
}

/// A token stands at `p` exactly where it stands in the rest from `d` on.
pub proof fn looking_at_is_local(s: Seq<char>, d: int, p: int, tok: Seq<char>)
    requires
        0 <= d <= p <= s.len(),
    ensures
        looking_at(s, p, tok) == looking_at(rest(s, d), p - d, tok),
{
    if p + tok.len() <= s.len() {
        assert(rest(s, d).subrange(p - d, p - d + tok.len()) =~= s.subrange(p, p + tok.len()));
    }
}

/// Whitespace is skipped in the rest from `d` on as in the whole text.
pub proof fn skip_spaces_is_local(s: Seq<char>, d: int, p: int)
    requires
        0 <= d <= p <= s.len(),
    ensures
        skip_spaces(s, p) == skip_spaces(rest(s, d), p - d) + d,
    decreases s.len() - p,
{
    if p < s.len() && is_space(s[p]) {
        skip_spaces_is_local(s, d, p + 1);
    }
}

/// An identifier ends in the rest from `d` on as in the whole text.
pub proof fn ident_end_is_local(s: Seq<char>, d: int, p: int)
    requires
        0 <= d <= p <= s.len(),
    ensures
        ident_end(s, p) == ident_end(rest(s, d), p - d) + d,
    decreases s.len() - p,
{
    if p < s.len() && is_ident_char(s[p]) {
        ident_end_is_local(s, d, p + 1);
    }
}

/// A run of digits and decimal points ends in the rest from `d` on as in
/// the whole text.
pub proof fn number_end_is_local(s: Seq<char>, d: int, p: int)
    requires
        0 <= d <= p <= s.len(),
    ensures
        number_end(s, p) == number_end(rest(s, d), p - d) + d,
    decreases s.len() - p,
{
    if p < s.len() && is_number_char(s[p]) {
        number_end_is_local(s, d, p + 1);
    }
}

/// A reference ends in the rest from `d` on as in the whole text.
pub proof fn reference_end_is_local(s: Seq<char>, d: int, p: int)
    requires
        0 <= d <= p <= s.len(),
    ensures
        reference_end(s, p) == reference_end(rest(s, d), p - d) + d,
    decreases s.len() - p,
{
    if p < s.len() && s[p] != ':' {
        reference_end_is_local(s, d, p + 1);
    }
}

/// A number is read from the rest from `d` on as from the whole text.
pub proof fn number_at_is_local(s: Seq<char>, d: int, p: int)
    requires
        0 <= d <= p <= s.len(),
    ensures
        number_at(s, p) == shifted(number_at(rest(s, d), p - d), d),
{
    number_end_is_local(s, d, p);
    number_end_bounds(s, p);
    let end = number_end(s, p);
    assert(rest(s, d).subrange(p - d, end - d) =~= s.subrange(p, end));
}

/// A string is read from the rest from `d` on as from the whole text.
pub proof fn string_at_is_local(s: Seq<char>, d: int, p: int)
    requires
        0 <= d <= p <= s.len(),
    ensures
        string_at(s, p) == shifted(string_at(rest(s, d), p - d), d),
    decreases s.len() - p,
{
    if p < s.len() && s[p] != '"' {
        if s[p] == '\\' {
            if unescape(char_at(s, p + 1)) is Some {
                string_at_is_local(s, d, p + 2);
            }
        } else {
            string_at_is_local(s, d, p + 1);
        }
    }
}

/// What a value is depends only on the text from its position on: read
/// from the rest from `d` on it is the same value, or the same failure.
pub proof fn value_at_is_local(s: Seq<char>, d: int, p: int)
    requires
        0 <= d <= p <= s.len(),
    ensures
        value_at(s, p) == shifted(value_at(rest(s, d), p - d), d),
    decreases s.len() - p, 0nat,
{
    let t = rest(s, d);
    skip_spaces_bounds(s, p);
    skip_spaces_is_local(s, d, p);
    let j = skip_spaces(s, p);
    looking_at_is_local(s, d, j, seq!['{']);
    looking_at_is_local(s, d, j, seq!['"']);
    looking_at_is_local(s, d, j, seq!['t', 'r', 'u', 'e']);
    looking_at_is_local(s, d, j, seq!['f', 'a', 'l', 's', 'e']);
    looking_at_is_local(s, d, j, seq!['@', '0', 'x']);
    if looking_at(s, j, seq!['{']) {
        entries_at_is_local(s, d, j + 1, true, Shape::Undetermined, Seq::empty(), Seq::empty());
    } else if looking_at(s, j, seq!['"']) {
        string_at_is_local(s, d, j + 1);
    } else if is_digit(char_at(s, j)) {
        number_at_is_local(s, d, j);
    } else if looking_at(s, j, seq!['t', 'r', 'u', 'e']) {
    } else if looking_at(s, j, seq!['f', 'a', 'l', 's', 'e']) {
    } else if looking_at(s, j, seq!['@', '0', 'x']) {
        reference_end_bounds(s, j + 3);
        reference_end_is_local(s, d, j + 3);
        value_at_is_local(s, d, reference_end(s, j + 3));
    }
}

/// The rest of a container is read from the rest of the text from `d` on
/// as from the whole text.
pub proof fn entries_at_is_local(
    s: Seq<char>,
    d: int,
    p: int,
    first: bool,
    shape: Shape,
    items: Seq<Tree>,
    pairs: Seq<(Tree, Tree)>,
)
    requires
        0 <= d <= p <= s.len(),
    ensures
        entries_at(s, p, first, shape, items, pairs) == shifted(
            entries_at(rest(s, d), p - d, first, shape, items, pairs),
            d,
        ),
    decreases s.len() - p, 1nat,
{
    let t = rest(s, d);
    skip_spaces_bounds(s, p);
    skip_spaces_is_local(s, d, p);
    let comma = skip_spaces(s, p);
    looking_at_is_local(s, d, comma, seq![',']);
    let has_comma = looking_at(s, comma, seq![',']);
    let from = if has_comma {
        comma + 1
    } else {
        comma
    };
    skip_spaces_bounds(s, from);
    skip_spaces_is_local(s, d, from);
    let k = skip_spaces(s, from);
    looking_at_is_local(s, d, k, seq!['}']);
    let kind = entry_kind(char_at(s, k));
    if first && has_comma {
    } else if looking_at(s, k, seq!['}']) {
    } else if !first && !has_comma {
    } else if lock(shape, kind) is Err {
    } else if kind == EntryKind::Item {
        value_at_is_local(s, d, k);
        if let Ok((item, end)) = value_at(s, k) {
            if k < end <= s.len() {
                entries_at_is_local(s, d, end, false, Shape::List, items.push(item), pairs);
            }
        }
    } else {
        key_at_is_local(s, d, k, kind);
        if let Ok((key, eq)) = key_at(s, k, kind) {
            if k < eq <= s.len() {
                value_at_is_local(s, d, eq);
                if let Ok((value, end)) = value_at(s, eq) {
                    if eq < end <= s.len() {
                        entries_at_is_local(
                            s,
                            d,
                            end,
                            false,
                            Shape::Dict,
                            items,
                            pairs.push((key, value)),
                        );
                    }
                }
            }
        }
    }
}

/// The key of an entry is read from the rest of the text from `d` on as
/// from the whole text.
pub proof fn key_at_is_local(s: Seq<char>, d: int, k: int, kind: EntryKind)
    requires
        0 <= d <= k <= s.len(),
    ensures
        key_at(s, k, kind) == shifted(key_at(rest(s, d), k - d, kind), d),
    decreases s.len() - k, 0nat,
{
    if k < s.len() {
        if kind == EntryKind::Keyed {
            value_at_is_local(s, d, k + 1);
            value_at_moves_on(s, k + 1);
            if let Ok((key, end)) = value_at(s, k + 1) {
                skip_spaces_bounds(s, end);
                skip_spaces_is_local(s, d, end);
                let close = skip_spaces(s, end);
                looking_at_is_local(s, d, close, seq![']']);
                if looking_at(s, close, seq![']']) {
                    skip_spaces_bounds(s, close + 1);
                    skip_spaces_is_local(s, d, close + 1);
                    looking_at_is_local(s, d, skip_spaces(s, close + 1), seq!['=']);
                }
            }
        } else {
            ident_end_bounds(s, k);
            ident_end_is_local(s, d, k);
            let end = ident_end(s, k);
            skip_spaces_bounds(s, end);
            skip_spaces_is_local(s, d, end);
            looking_at_is_local(s, d, skip_spaces(s, end), seq!['=']);
            assert(rest(s, d).subrange(k - d, end - d) =~= s.subrange(k, end));
        }
    }
}

/// A reference is transparent: the value that begins with `@0x` is the
/// value that the text behind the reference's colon holds when it is
/// parsed alone.
pub proof fn reference_is_transparent(s: Seq<char>, i: int)
    requires
        0 <= i <= s.len(),
        looking_at(s, skip_spaces(s, i), seq!['@', '0', 'x']),
    ensures
        ({
            let colon = reference_end(s, skip_spaces(s, i) + 3);
            &&& 0 <= colon <= s.len()
            &&& value_at(s, i) == shifted(value_at(rest(s, colon), 0), colon)
        }),
{
    let j = skip_spaces(s, i);
    skip_spaces_bounds(s, i);
    token_begins(s, j, seq!['@', '0', 'x']);
    if looking_at(s, j, seq!['{']) {
        token_begins(s, j, seq!['{']);
    }
    if looking_at(s, j, seq!['"']) {
        token_begins(s, j, seq!['"']);
    }
    if looking_at(s, j, seq!['t', 'r', 'u', 'e']) {
        token_begins(s, j, seq!['t', 'r', 'u', 'e']);
    }
    if looking_at(s, j, seq!['f', 'a', 'l', 's', 'e']) {
        token_begins(s, j, seq!['f', 'a', 'l', 's', 'e']);
    }
    let colon = reference_end(s, j + 3);
    reference_end_bounds(s, j + 3);
    value_at_is_local(s, colon, colon);
}

} // verus!

//! The parser: a cursor over an ASCII text, and one method for each
//! production of the syntax.

use vstd::prelude::*;
use vstd::string::{is_ascii, is_ascii_spec_bytes, StrSliceExecFns};
use vstd::utf8::is_ascii_chars;
use crate::chars::{decode_escape, digit, ident_char, number_char, space};
use crate::error::{ParseError, Separator};
use crate::grammar::{
    char_at, classify, entries_at, entry_kind, ident_end, key_at, key_at_moves_on, looking_at,
    looking_at_char, number_at, number_end, prefixed, prefixed_twice, reference_end,
    reference_end_bounds, skip_spaces, skip_spaces_bounds, string_at, value_at,
    value_at_moves_on, EntryKind, Shape,
};
use crate::value::{
    dict_view, dots, list_view, tree_pairs, tree_pairs_push, trees, trees_push, Tree, Value,
};

verus! {

/// `String::push` puts `ch` at the end of the string and changes nothing
/// else of it.
pub assume_specification[ std::string::String::push ](s: &mut std::string::String, ch: char)
    ensures
        final(s)@ == old(s)@.push(ch),
;

/// Whether `got`, with the cursor left at `cursor`, is what the syntax
/// gives: the value whose model is the tree, read up to that position, or
/// the same failure.
pub open spec fn is_value(
    got: Result<Value, ParseError>,
    cursor: int,
    want: Result<(Tree, int), ParseError>,
) -> bool {
    match want {
        Ok((tree, end)) => got matches Ok(v) && v@ == tree && cursor == end,
        Err(e) => got matches Err(f) && f == e,
    }
}

/// Whether `got`, with the cursor left at `cursor`, is what the syntax
/// gives: the text, read up to that position, or the same failure.
pub open spec fn is_text(
    got: Result<String, ParseError>,
    cursor: int,
    want: Result<(Seq<char>, int), ParseError>,
) -> bool {
    match want {
        Ok((text, end)) => got matches Ok(t) && t@ == text && cursor == end,
        Err(e) => got matches Err(f) && f == e,
    }
}

/// What the tokens of the syntax hold.
proof fn tokens()
    ensures
        "{"@ == seq!['{'],
        "}"@ == seq!['}'],
        "["@ == seq!['['],
        "]"@ == seq![']'],
        ","@ == seq![','],
        "="@ == seq!['='],
        ":"@ == seq![':'],
        "\""@ == seq!['"'],
        "\\"@ == seq!['\\'],
        "true"@ == seq!['t', 'r', 'u', 'e'],
        "false"@ == seq!['f', 'a', 'l', 's', 'e'],
        "@0x"@ == seq!['@', '0', 'x'],
{
    reveal_strlit("{");
    reveal_strlit("}");
    reveal_strlit("[");
    reveal_strlit("]");
    reveal_strlit(",");
    reveal_strlit("=");
    reveal_strlit(":");
    reveal_strlit("\"");
    reveal_strlit("\\");
    reveal_strlit("true");
    reveal_strlit("false");
    reveal_strlit("@0x");
    assert("{"@ =~= seq!['{']);
    assert("}"@ =~= seq!['}']);
    assert("["@ =~= seq!['[']);
    assert("]"@ =~= seq![']']);
    assert(","@ =~= seq![',']);
    assert("="@ =~= seq!['=']);
    assert(":"@ =~= seq![':']);
    assert("\""@ =~= seq!['"']);
    assert("\\"@ =~= seq!['\\']);
    assert("true"@ =~= seq!['t', 'r', 'u', 'e']);
    assert("false"@ =~= seq!['f', 'a', 'l', 's', 'e']);
    assert("@0x"@ =~= seq!['@', '0', 'x']);
}

/// A cursor over a text. Every method reads from the cursor on and leaves
/// it at the position up to which it read.
pub struct Parser<'a> {
    src: &'a str,
    pos: usize,
}

impl<'a> Parser<'a> {
    /// The text that is parsed.
    pub closed spec fn source(&self) -> Seq<char> {
        self.src@
    }

    /// The position of the cursor in the text.
    pub closed spec fn cursor(&self) -> int {
        self.pos as int
    }

    /// The text is ASCII, and the cursor is a position in it or its end.
    pub open spec fn wf(&self) -> bool {
        &&& is_ascii_chars(self.source())
        &&& 0 <= self.cursor() <= self.source().len()
    }

    /// The same parser with its cursor at `pos`.
    pub open spec fn moved_to(&self, other: &Self, pos: int) -> bool {
        &&& other.source() == self.source()
        &&& other.cursor() == pos
    }

    /// A parser at the start of `src`.
    pub fn new(src: &'a str) -> (p: Self)
        requires
            src.is_ascii(),
        ensures
            p.wf(),
            p.source() == src@,
            p.cursor() == 0,
    {
        Self { src, pos: 0 }
    }

    /// The position of the cursor.
    pub fn position(&self) -> (pos: usize)
        ensures
            pos == self.cursor(),
    {
        self.pos
    }

    fn len(&self) -> (n: usize)
        requires
            self.wf(),
        ensures
            n == self.source().len(),
    {
        broadcast use is_ascii_spec_bytes;

        assert(is_ascii(self.src));
        self.src.as_bytes().len()
    }

    fn get(&self, i: usize) -> (c: char)
        requires
            self.wf(),
            i < self.source().len(),
        ensures
            c == self.source()[i as int],
    {
        self.src.get_ascii(i) as char
    }

    /// Whether the cursor stands at the end of the text.
    pub fn at_eof(&self) -> (r: bool)
        requires
            self.wf(),
        ensures
            r == (self.cursor() == self.source().len()),
    {
        self.pos >= self.len()
    }

    /// The position behind `tok`, where `tok` stands at the cursor.
    fn behind(&self, tok: &str) -> (r: Option<usize>)
        requires
            self.wf(),
        ensures
            r is Some == looking_at(self.source(), self.cursor(), tok@),
            r matches Some(end) ==> end == self.cursor() + tok@.len(),
    {
        broadcast use is_ascii_spec_bytes;

        if !tok.is_ascii() {
            proof {
                let k = choose|k: int|
                    0 <= k < tok@.len() && !('\0' <= #[trigger] tok@[k] && tok@[k] <= '\u{7f}');
                if looking_at(self.source(), self.cursor(), tok@) {
                    assert(self.source().subrange(self.cursor(), self.cursor() + tok@.len())[k]
                        == self.source()[self.cursor() + k]);
                }
            }
            return None;
        }
        let n = tok.as_bytes().len();
        let len = self.len();
        if n > len - self.pos {
            return None;
        }
        let mut k: usize = 0;
        while k < n
            invariant
                self.wf(),
                is_ascii(tok),
                n == tok@.len(),
                k <= n,
                self.pos + n <= len == self.source().len(),
                forall|j: int| 0 <= j < k ==> self.source()[self.pos + j] == tok@[j],
            decreases n - k,
        {
            if self.get(self.pos + k) != tok.get_ascii(k) as char {
                proof {
                    if looking_at(self.source(), self.cursor(), tok@) {
                        assert(self.source().subrange(
                            self.cursor(),
                            self.cursor() + tok@.len(),
                        )[k as int] == self.source()[self.cursor() + k]);
                    }
                }
                return None;
            }
            k += 1;
        }
        assert(self.source().subrange(self.cursor(), self.cursor() + tok@.len()) =~= tok@);
        Some(self.pos + n)
    }

    /// Whether `tok` stands at the cursor.
    pub fn at(&self, tok: &str) -> (r: bool)
        requires
            self.wf(),
        ensures
            r == looking_at(self.source(), self.cursor(), tok@),
    {
        self.behind(tok).is_some()
    }

    /// Moves the cursor to `pos`.
    pub fn goto(&mut self, pos: usize)
        requires
            old(self).wf(),
            pos <= old(self).source().len(),
        ensures
            final(self).wf(),
            old(self).moved_to(final(self), pos as int),
    {
        self.pos = pos;
    }

    /// Moves the cursor behind `tok` where `tok` stands at the cursor, and
    /// says whether it did.
    pub fn eat(&mut self, tok: &str) -> (r: bool)
        requires
            old(self).wf(),
        ensures
            final(self).wf(),
            r == looking_at(old(self).source(), old(self).cursor(), tok@),
            old(self).moved_to(
                final(self),
                if r {
                    old(self).cursor() + tok@.len()
                } else {
                    old(self).cursor()
                },
            ),
    {
        match self.behind(tok) {
            Some(end) => {
                self.goto(end);
                true
            },
            None => false,
        }
    }

    /// Moves the cursor over any whitespace.
    pub fn eat_ws(&mut self)
        requires
            old(self).wf(),
        ensures
            final(self).wf(),
            old(self).moved_to(final(self), skip_spaces(old(self).source(), old(self).cursor())),
    {
        let len = self.len();
        while self.pos < len && space(self.get(self.pos))
            invariant
                self.wf(),
                len == self.source().len(),
                self.source() == old(self).source(),
                skip_spaces(self.source(), self.cursor()) == skip_spaces(
                    old(self).source(),
                    old(self).cursor(),
                ),
            decreases self.source().len() - self.cursor(),
        {
            self.pos += 1;
        }
    }

    /// The character at the cursor, or NUL at the end of the text.
    pub fn current(&self) -> (c: char)
        requires
            self.wf(),
        ensures
            c == char_at(self.source(), self.cursor()),
    {
        if self.pos < self.len() {
            self.get(self.pos)
        } else {
            '\0'
        }
    }

    /// Moves the cursor one character on. At the end of the text it stays.
    pub fn advance(&mut self)
        requires
            old(self).wf(),
        ensures
            final(self).wf(),
            old(self).moved_to(
                final(self),
                if old(self).cursor() < old(self).source().len() {
                    old(self).cursor() + 1
                } else {
                    old(self).cursor()
                },
            ),
    {
        if self.pos < self.len() {
            self.goto(self.pos + 1);
        }
    }

    /// The character at the cursor, which moves one character on.
    pub fn eat_current(&mut self) -> (c: char)
        requires
            old(self).wf(),
        ensures
            final(self).wf(),
            c == char_at(old(self).source(), old(self).cursor()),
            old(self).moved_to(
                final(self),
                if old(self).cursor() < old(self).source().len() {
                    old(self).cursor() + 1
                } else {
                    old(self).cursor()
                },
            ),
    {
        let curr = self.current();
        self.advance();
        curr
    }

    /// Reads the identifier at the cursor: the letters and digits up to the
    /// first other character.
    pub fn parse_ident(&mut self) -> (name: String)
        requires
            old(self).wf(),
        ensures
            final(self).wf(),
            old(self).moved_to(final(self), ident_end(old(self).source(), old(self).cursor())),
            name@ == old(self).source().subrange(
                old(self).cursor(),
                ident_end(old(self).source(), old(self).cursor()),
            ),
    {
        let start = self.pos;
        while ident_char(self.current())
            invariant
                self.wf(),
                self.source() == old(self).source(),
                start <= self.pos,
                ident_end(self.source(), self.cursor()) == ident_end(
                    old(self).source(),
                    old(self).cursor(),
                ),
            decreases self.source().len() - self.cursor(),
        {
            self.advance();
        }
        self.src.substring_ascii(start, self.pos).to_owned()
    }

    /// Drops the rest of a reference: moves the cursor behind the next `:`,
    /// or to the end of the text where there is none.
    pub fn remove_reference(&mut self)
        requires
            old(self).wf(),
        ensures
            final(self).wf(),
            old(self).moved_to(
                final(self),
                reference_end(old(self).source(), old(self).cursor()),
            ),
    {
        let mut done = false;
        while !done
            invariant
                self.wf(),
                self.source() == old(self).source(),
                done ==> self.cursor() == reference_end(old(self).source(), old(self).cursor()),
                !done ==> reference_end(self.source(), self.cursor()) == reference_end(
                    old(self).source(),
                    old(self).cursor(),
                ),
            decreases
                self.source().len() - self.cursor(),
                if done {
                    0nat
                } else {
                    1nat
                },
        {
            proof {
                tokens();
                looking_at_char(self.source(), self.cursor(), ':');
            }
            if self.at_eof() || self.eat(":") {
                done = true;
            } else {
                self.advance();
            }
        }
    }

    /// Reads the number at the cursor: the longest run of digits and decimal
    /// points, which has to hold a digit and at most one decimal point. The
    /// run is checked once it is read, and given as it is written.
    pub fn parse_number(&mut self) -> (r: Result<String, ParseError>)
        requires
            old(self).wf(),
        ensures
            final(self).wf(),
            final(self).source() == old(self).source(),
            is_text(r, final(self).cursor(), number_at(old(self).source(), old(self).cursor())),
    {
        let start = self.pos;
        let len = self.len();
        let mut points: usize = 0;
        while self.pos < len && number_char(self.get(self.pos))
            invariant
                self.wf(),
                len == self.source().len(),
                self.source() == old(self).source(),
                start == old(self).cursor(),
                start <= self.pos,
                number_end(self.source(), self.cursor()) == number_end(
                    old(self).source(),
                    old(self).cursor(),
                ),
                points == dots(self.source().subrange(start as int, self.cursor())),
                points <= self.pos - start,
            decreases self.source().len() - self.cursor(),
        {
            proof {
                assert(self.source().subrange(start as int, self.cursor() + 1).drop_last()
                    =~= self.source().subrange(start as int, self.cursor()));
            }
            if self.get(self.pos) == '.' {
                points += 1;
            }
            self.pos += 1;
        }
        if points <= 1 && points < self.pos - start {
            Ok(self.src.substring_ascii(start, self.pos).to_owned())
        } else {
            Err(ParseError::InvalidNumber)
        }
    }

    /// Reads the rest of a string, whose opening quote stands before the
    /// cursor, up to and with its closing quote, and gives the text with
    /// its escapes resolved.
    pub fn parse_string(&mut self) -> (r: Result<String, ParseError>)
        requires
            old(self).wf(),
        ensures
            final(self).wf(),
            final(self).source() == old(self).source(),
            is_text(r, final(self).cursor(), string_at(old(self).source(), old(self).cursor())),
    {
        let mut text = String::new();
        while !self.at_eof() && !self.at("\"")
            invariant
                self.wf(),
                self.source() == old(self).source(),
                string_at(old(self).source(), old(self).cursor()) == prefixed(
                    text@,
                    string_at(self.source(), self.cursor()),
                ),
            decreases self.source().len() - self.cursor(),
        {
            let ghost here = self.cursor();
            let ghost before = text@;
            proof {
                tokens();
                looking_at_char(self.source(), here, '"');
                looking_at_char(self.source(), here, '\\');
            }
            if self.eat("\\") {
                match decode_escape(self.eat_current()) {
                    Some(c) => {
                        text.push(c);
                        proof {
                            prefixed_twice(before, seq![c], string_at(self.source(), here + 2));
                            assert(before + seq![c] =~= before.push(c));
                        }
                    },
                    None => {
                        return Err(ParseError::UnknownEscapeSequence);
                    },
                }
            } else {
                let c = self.eat_current();
                text.push(c);
                proof {
                    prefixed_twice(before, seq![c], string_at(self.source(), here + 1));
                    assert(before + seq![c] =~= before.push(c));
                }
            }
        }
        proof {
            tokens();
            looking_at_char(self.source(), self.cursor(), '"');
            assert(text@ + Seq::<char>::empty() =~= text@);
        }
        if !self.eat("\"") {
            return Err(ParseError::UnterminatedString);
        }
        Ok(text)
    }

    /// Reads the key of an entry of form `kind`, which begins at the cursor,
    /// up to and with the `=` behind it.
    fn parse_key(&mut self, kind: EntryKind) -> (r: Result<Value, ParseError>)
        requires
            old(self).wf(),
            old(self).cursor() < old(self).source().len(),
            kind != EntryKind::Item,
            kind == entry_kind(char_at(old(self).source(), old(self).cursor())),
        ensures
            final(self).wf(),
            final(self).source() == old(self).source(),
            is_value(r, final(self).cursor(), key_at(old(self).source(), old(self).cursor(), kind)),
        decreases old(self).source().len() - old(self).cursor(), 0nat,
    {
        let key = match kind {
            EntryKind::Keyed => {
                self.advance();
                let key = self.parse_value()?;
                self.eat_ws();
                proof {
                    tokens();
                }
                if !self.eat("]") {
                    return Err(ParseError::MissingSeparator(Separator::Bracket));
                }
                key
            },
            _ => Value::String(self.parse_ident()),
        };
        self.eat_ws();
        proof {
            tokens();
        }
        if !self.eat("=") {
            return Err(ParseError::MissingSeparator(Separator::Equals));
        }
        Ok(key)
    }

    /// Reads the rest of a container, whose opening brace stands before the
    /// cursor, up to and with its closing brace. The first entry fixes
    /// whether the container is a list or a map, and every later entry has
    /// to have that shape. A container without entries is a list.
    pub fn parse_list_or_map(&mut self) -> (r: Result<Value, ParseError>)
        requires
            old(self).wf(),
        ensures
            final(self).wf(),
            final(self).source() == old(self).source(),
            is_value(
                r,
                final(self).cursor(),
                entries_at(
                    old(self).source(),
                    old(self).cursor(),
                    true,
                    Shape::Undetermined,
                    Seq::empty(),
                    Seq::empty(),
                ),
            ),
        decreases old(self).source().len() - old(self).cursor(), 1nat,
    {
        let mut first = true;
        let mut shape = Shape::Undetermined;
        let mut list: Vec<Value> = Vec::new();
        let mut map: Vec<(Value, Value)> = Vec::new();
        proof {
            assert(trees(list@) =~= Seq::empty());
            assert(tree_pairs(map@) =~= Seq::empty());
        }
        loop
            invariant
                self.wf(),
                self.source() == old(self).source(),
                old(self).cursor() <= self.cursor(),
                entries_at(
                    self.source(),
                    self.cursor(),
                    first,
                    shape,
                    trees(list@),
                    tree_pairs(map@),
                ) == entries_at(
                    old(self).source(),
                    old(self).cursor(),
                    true,
                    Shape::Undetermined,
                    Seq::empty(),
                    Seq::empty(),
                ),
            decreases self.source().len() - self.cursor(),
        {
            let ghost s = self.source();
            let ghost i = self.cursor();
            proof {
                tokens();
                skip_spaces_bounds(s, i);
            }
            self.eat_ws();
            let has_comma = self.eat(",");
            proof {
                skip_spaces_bounds(s, self.cursor());
            }
            self.eat_ws();
            let ghost k = self.cursor();
            if first && has_comma {
                return Err(ParseError::LeadingSeparator);
            }
            if self.eat("}") {
                proof {
                    list_view(list);
                    dict_view(map);
                }
                return Ok(
                    match shape {
                        Shape::Dict => Value::Dict(map),
                        _ => Value::List(list),
                    },
                );
            }
            if !first && !has_comma {
                return Err(ParseError::MissingSeparator(Separator::Comma));
            }
            let kind = classify(self.current());
            shape = shape.locked(kind)?;
            match kind {
                EntryKind::Item => {
                    proof {
                        value_at_moves_on(s, k);
                    }
                    let item = self.parse_value()?;
                    proof {
                        trees_push(list@, item);
                    }
                    list.push(item);
                },
                _ => {
                    proof {
                        key_at_moves_on(s, k, kind);
                    }
                    let key = self.parse_key(kind)?;
                    proof {
                        value_at_moves_on(s, self.cursor());
                    }
                    let value = self.parse_value()?;
                    proof {
                        tree_pairs_push(map@, key, value);
                    }
                    map.push((key, value));
                },
            }
            first = false;
        }
    }

    /// Reads the value at the cursor, after any whitespace: a container, a
    /// string, a number, `true` or `false`, or a reference, which is
    /// dropped up to its `:` and gives the value behind it.
    pub fn parse_value(&mut self) -> (r: Result<Value, ParseError>)
        requires
            old(self).wf(),
        ensures
            final(self).wf(),
            final(self).source() == old(self).source(),
            is_value(r, final(self).cursor(), value_at(old(self).source(), old(self).cursor())),
        decreases old(self).source().len() - old(self).cursor(), 0nat,
    {
        proof {
            tokens();
            skip_spaces_bounds(self.source(), self.cursor());
        }
        self.eat_ws();
        if self.eat("{") {
            self.parse_list_or_map()
        } else if self.eat("\"") {
            match self.parse_string() {
                Ok(text) => Ok(Value::String(text)),
                Err(e) => Err(e),
            }
        } else if digit(self.current()) {
            match self.parse_number() {
                Ok(text) => Ok(Value::Number(text)),
                Err(e) => Err(e),
            }
        } else if self.eat("true") {
            Ok(Value::Bool(true))
        } else if self.eat("false") {
            Ok(Value::Bool(false))
        } else if self.eat("@0x") {
            proof {
                reference_end_bounds(self.source(), self.cursor());
            }
            self.remove_reference();
            self.parse_value()
        } else {
            Err(ParseError::ExpectedValue)
        }
    }
}

} // verus!

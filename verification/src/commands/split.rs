use vstd::prelude::*;
use vstd::string::*;
use crate::lang::errors::JobError;
use crate::lang::scope::Scopes;
use crate::lang::scope_model::{ScopeModel, registers, fresh, with_binding, with_namespace, declare_result};
use crate::lang::value::{Value, ValueType, Builtin, OutputType};
use crate::lang::table::{ColumnType, Row};

verus! {

/// A character ends a token when it is one of the separators.
pub open spec fn ends_token(separator: Seq<char>, c: char) -> bool {
    separator.contains(c)
}

/// The part of a text that is cut into tokens: all of it, but for one
/// line end that closes it. That line end belongs to no token; where the
/// line end is itself a separator it stays, and ends a token as any
/// separator does. A line end anywhere else is a character like others.
pub open spec fn content(text: Seq<char>, separator: Seq<char>) -> Seq<char> {
    if text.len() > 0 && text.last() == '\n' && !separator.contains('\n') {
        text.drop_last()
    } else {
        text
    }
}

/// The text cut at every character that ends a token: the stretches
/// between them, empty ones too, and last the stretch that nothing ended.
pub open spec fn pieces(text: Seq<char>, separator: Seq<char>) -> Seq<Seq<char>>
    decreases text.len(),
{
    if text.len() == 0 {
        seq![Seq::<char>::empty()]
    } else {
        let before = pieces(text.drop_last(), separator);
        if ends_token(separator, text.last()) {
            before.push(Seq::<char>::empty())
        } else {
            before.drop_last().push(before.last().push(text.last()))
        }
    }
}

/// The text without the characters of `trim` that it begins with.
pub open spec fn strip_front(s: Seq<char>, trim: Seq<char>) -> Seq<char>
    decreases s.len(),
{
    if s.len() > 0 && trim.contains(s[0]) {
        strip_front(s.skip(1), trim)
    } else {
        s
    }
}

/// The text without the characters of `trim` that it ends with.
pub open spec fn strip_back(s: Seq<char>, trim: Seq<char>) -> Seq<char>
    decreases s.len(),
{
    if s.len() > 0 && trim.contains(s.last()) {
        strip_back(s.drop_last(), trim)
    } else {
        s
    }
}

/// A piece as it is emitted: stripped at both ends where there is a set of
/// characters to trim, untouched where there is none.
pub open spec fn trimmed(piece: Seq<char>, trim: Option<Seq<char>>) -> Seq<char> {
    match trim {
        Some(t) => strip_back(strip_front(piece, t), t),
        None => piece,
    }
}

/// Whether a trimmed piece becomes a token: always where empty tokens are
/// allowed, else only where something is left of it.
pub open spec fn kept(token: Seq<char>, allow_empty: bool) -> bool {
    allow_empty || token.len() > 0
}

/// The tokens of a sequence of pieces, in their order.
pub open spec fn emitted(parts: Seq<Seq<char>>, trim: Option<Seq<char>>, allow_empty: bool) -> Seq<
    Seq<char>,
>
    decreases parts.len(),
{
    if parts.len() == 0 {
        Seq::empty()
    } else {
        let before = emitted(parts.drop_last(), trim, allow_empty);
        let token = trimmed(parts.last(), trim);
        if kept(token, allow_empty) {
            before.push(token)
        } else {
            before
        }
    }
}

/// The tokens of a text: its content cut at every separator, each piece
/// trimmed, the empty ones left out unless they are allowed.
pub open spec fn tokens(text: Seq<char>, separator: Seq<char>, trim: Option<Seq<char>>, allow_empty: bool) -> Seq<
    Seq<char>,
> {
    emitted(pieces(content(text, separator), separator), trim, allow_empty)
}

/// The view of an optional string.
pub open spec fn trim_view(trim: Option<String>) -> Option<Seq<char>> {
    match trim {
        Some(t) => Some(t@),
        None => None,
    }
}

/// A row of one cell, the string `token`.
pub open spec fn is_token_row(row: Row, token: Seq<char>) -> bool {
    &&& row@.len() == 1
    &&& match row@[0] {
        Value::String(s) => s@ == token,
        _ => false,
    }
}

/// Rows of one string each, the strings being `tokens` in their order.
pub open spec fn are_token_rows(rows: Seq<Row>, tokens: Seq<Seq<char>>) -> bool {
    &&& rows.len() == tokens.len()
    &&& forall|i: int| 0 <= i < rows.len() ==> is_token_row(#[trigger] rows[i], tokens[i])
}

/// A text always has a last piece.
pub proof fn lemma_pieces_nonempty(text: Seq<char>, separator: Seq<char>)
    ensures
        pieces(text, separator).len() >= 1,
    decreases text.len(),
{
    if text.len() > 0 {
        lemma_pieces_nonempty(text.drop_last(), separator);
    }
}

/// No piece holds a character that ends a token.
pub proof fn law_pieces_hold_no_separator(text: Seq<char>, separator: Seq<char>)
    ensures
        forall|k: int, i: int|
            0 <= k < pieces(text, separator).len() && 0 <= i < pieces(text, separator)[k].len()
                ==> !ends_token(separator, #[trigger] pieces(text, separator)[k][i]),
    decreases text.len(),
{
    if text.len() > 0 {
        law_pieces_hold_no_separator(text.drop_last(), separator);
        lemma_pieces_nonempty(text.drop_last(), separator);
    }
}

/// The separators of a text, in the order in which they stand in it.
pub open spec fn marks(text: Seq<char>, separator: Seq<char>) -> Seq<char>
    decreases text.len(),
{
    if text.len() == 0 {
        Seq::empty()
    } else if ends_token(separator, text.last()) {
        marks(text.drop_last(), separator).push(text.last())
    } else {
        marks(text.drop_last(), separator)
    }
}

/// The parts written out one after the other, with `between[k]` between
/// part `k` and the part after it.
pub open spec fn joined(parts: Seq<Seq<char>>, between: Seq<char>) -> Seq<char>
    decreases parts.len(),
{
    if parts.len() == 0 {
        Seq::empty()
    } else if parts.len() == 1 || between.len() == 0 {
        parts.last()
    } else {
        joined(parts.drop_last(), between.drop_last()) + seq![between.last()] + parts.last()
    }
}

/// A text has one piece more than it has separators, and the pieces
/// written out with the separators between them, in order, are the text.
pub proof fn law_pieces_make_the_text(text: Seq<char>, separator: Seq<char>)
    ensures
        pieces(text, separator).len() == marks(text, separator).len() + 1,
        joined(pieces(text, separator), marks(text, separator)) == text,
    decreases text.len(),
{
    if text.len() == 0 {
        assert(joined(pieces(text, separator), marks(text, separator)) =~= text);
    } else {
        let c = text.last();
        let shorter = text.drop_last();
        let before = pieces(shorter, separator);
        let seps = marks(shorter, separator);
        law_pieces_make_the_text(shorter, separator);
        let parts = pieces(text, separator);
        let between = marks(text, separator);
        if ends_token(separator, c) {
            assert(parts.drop_last() =~= before);
            assert(between.drop_last() =~= seps);
            assert(joined(parts, between) =~= shorter + seq![c] + Seq::<char>::empty());
            assert(shorter + seq![c] + Seq::<char>::empty() =~= text);
        } else if before.len() == 1 {
            assert(parts.last() == before.last().push(c));
            assert(joined(before, seps) == before.last());
            assert(before.last().push(c) =~= text);
        } else {
            assert(parts.drop_last() =~= before.drop_last());
            assert(parts.last() == before.last().push(c));
            let head = joined(before.drop_last(), seps.drop_last()) + seq![seps.last()];
            assert(joined(before, seps) == head + before.last());
            assert(joined(parts, between) == head + before.last().push(c));
            assert(head + before.last().push(c) =~= (head + before.last()).push(c));
            assert(shorter.push(c) =~= text);
        }
    }
}

/// What is left of a text after stripping is a stretch of it that neither
/// begins nor ends with a character that is trimmed.
pub proof fn law_trimmed_ends_clean(piece: Seq<char>, trim: Seq<char>)
    ensures
        ({
            let token = trimmed(piece, Some(trim));
            token.len() > 0 ==> !trim.contains(token.first()) && !trim.contains(token.last())
        }),
        exists|from: int, to: int|
            0 <= from <= to <= piece.len() && #[trigger] piece.subrange(from, to) == trimmed(
                piece,
                Some(trim),
            ),
{
    lemma_strip_front(piece, trim);
    let front = strip_front(piece, trim);
    lemma_strip_back(front, trim);
    let from = choose|from: int| 0 <= from <= piece.len() && piece.skip(from) == front;
    let to = choose|to: int| 0 <= to <= front.len() && front.take(to) == strip_back(front, trim);
    assert(piece.subrange(from, from + to) =~= piece.skip(from).take(to));
}

proof fn lemma_strip_front(s: Seq<char>, trim: Seq<char>)
    ensures
        strip_front(s, trim).len() > 0 ==> !trim.contains(strip_front(s, trim).first()),
        exists|from: int| 0 <= from <= s.len() && #[trigger] s.skip(from) == strip_front(s, trim),
    decreases s.len(),
{
    if s.len() > 0 && trim.contains(s[0]) {
        lemma_strip_front(s.skip(1), trim);
        let from = choose|from: int|
            0 <= from <= s.skip(1).len() && #[trigger] s.skip(1).skip(from) == strip_front(s.skip(1), trim);
        assert(s.skip(from + 1) =~= s.skip(1).skip(from));
    } else {
        assert(s.skip(0) =~= s);
    }
}

proof fn lemma_strip_back(s: Seq<char>, trim: Seq<char>)
    ensures
        strip_back(s, trim).len() > 0 ==> !trim.contains(strip_back(s, trim).last()) && strip_back(
            s,
            trim,
        ).first() == s.first(),
        exists|to: int| 0 <= to <= s.len() && #[trigger] s.take(to) == strip_back(s, trim),
    decreases s.len(),
{
    if s.len() > 0 && trim.contains(s.last()) {
        lemma_strip_back(s.drop_last(), trim);
        let to = choose|to: int|
            0 <= to <= s.drop_last().len() && #[trigger] s.drop_last().take(to) == strip_back(
                s.drop_last(),
                trim,
            );
        assert(s.take(to) =~= s.drop_last().take(to));
    } else {
        assert(s.take(s.len() as int) =~= s);
    }
}

/// Where empty tokens are not allowed, none is emitted.
pub proof fn law_no_empty_token(parts: Seq<Seq<char>>, trim: Option<Seq<char>>)
    ensures
        forall|k: int|
            0 <= k < emitted(parts, trim, false).len() ==> (#[trigger] emitted(parts, trim, false)[k]).len()
                > 0,
    decreases parts.len(),
{
    if parts.len() > 0 {
        law_no_empty_token(parts.drop_last(), trim);
        let before = emitted(parts.drop_last(), trim, false);
        let all = emitted(parts, trim, false);
        assert forall|k: int| 0 <= k < all.len() implies (#[trigger] all[k]).len() > 0 by {
            if k < before.len() {
                assert(all[k] == before[k]);
            }
        }
    }
}

/// Where empty tokens are allowed, every piece gives a token: one more
/// token than the text has characters that end one.
pub proof fn law_every_piece_emitted(parts: Seq<Seq<char>>, trim: Option<Seq<char>>)
    ensures
        emitted(parts, trim, true).len() == parts.len(),
        forall|k: int|
            0 <= k < parts.len() ==> #[trigger] emitted(parts, trim, true)[k] == trimmed(parts[k], trim),
    decreases parts.len(),
{
    if parts.len() > 0 {
        law_every_piece_emitted(parts.drop_last(), trim);
    }
}

/// Where nothing is trimmed and empty tokens are allowed, the tokens are
/// one more than the separators of the content, and written out with those
/// separators between them they are the content.
pub proof fn law_untrimmed_tokens_make_the_text(text: Seq<char>, separator: Seq<char>)
    ensures
        ({
            let body = content(text, separator);
            let all = tokens(text, separator, None, true);
            all.len() == marks(body, separator).len() + 1 && joined(all, marks(body, separator)) == body
        }),
{
    let body = content(text, separator);
    law_every_piece_emitted(pieces(body, separator), None);
    law_pieces_make_the_text(body, separator);
    assert(tokens(text, separator, None, true) =~= pieces(body, separator));
}

/// A token as it should be: no separator in it; not empty unless empty
/// tokens are allowed; and where characters are trimmed, none of them at
/// either end.
pub open spec fn is_clean_token(
    token: Seq<char>,
    separator: Seq<char>,
    trim: Option<Seq<char>>,
    allow_empty: bool,
) -> bool {
    &&& forall|i: int| 0 <= i < token.len() ==> !separator.contains(#[trigger] token[i])
    &&& !allow_empty ==> token.len() > 0
    &&& match trim {
        Some(t) => token.len() > 0 ==> !t.contains(token.first()) && !t.contains(token.last()),
        None => true,
    }
}

/// Every token is some piece, trimmed, and is kept.
proof fn lemma_emitted_from_parts(parts: Seq<Seq<char>>, trim: Option<Seq<char>>, allow_empty: bool)
    ensures
        forall|k: int|
            0 <= k < emitted(parts, trim, allow_empty).len() ==> kept(
                #[trigger] emitted(parts, trim, allow_empty)[k],
                allow_empty,
            ) && exists|j: int|
                0 <= j < parts.len() && trimmed(#[trigger] parts[j], trim) == emitted(
                    parts,
                    trim,
                    allow_empty,
                )[k],
    decreases parts.len(),
{
    if parts.len() > 0 {
        lemma_emitted_from_parts(parts.drop_last(), trim, allow_empty);
        let before = emitted(parts.drop_last(), trim, allow_empty);
        let all = emitted(parts, trim, allow_empty);
        assert forall|k: int| 0 <= k < all.len() implies kept(#[trigger] all[k], allow_empty) && exists|j: int|
            0 <= j < parts.len() && trimmed(#[trigger] parts[j], trim) == all[k] by {
            if k < before.len() {
                assert(all[k] == before[k]);
                let j = choose|j: int|
                    0 <= j < parts.drop_last().len() && trimmed(#[trigger] parts.drop_last()[j], trim)
                        == before[k];
                assert(parts[j] == parts.drop_last()[j]);
            } else {
                assert(trimmed(parts[parts.len() - 1], trim) == all[k]);
            }
        }
    }
}

/// Every token of every text is clean, whatever the separators, the
/// characters to trim and the flag.
pub proof fn law_tokens_are_clean(
    text: Seq<char>,
    separator: Seq<char>,
    trim: Option<Seq<char>>,
    allow_empty: bool,
)
    ensures
        forall|k: int|
            0 <= k < tokens(text, separator, trim, allow_empty).len() ==> is_clean_token(
                #[trigger] tokens(text, separator, trim, allow_empty)[k],
                separator,
                trim,
                allow_empty,
            ),
{
    let parts = pieces(content(text, separator), separator);
    let all = tokens(text, separator, trim, allow_empty);
    lemma_emitted_from_parts(parts, trim, allow_empty);
    law_pieces_hold_no_separator(content(text, separator), separator);
    assert forall|k: int| 0 <= k < all.len() implies is_clean_token(
        #[trigger] all[k],
        separator,
        trim,
        allow_empty,
    ) by {
        let j = choose|j: int| 0 <= j < parts.len() && trimmed(#[trigger] parts[j], trim) == all[k];
        match trim {
            Some(t) => {
                law_trimmed_ends_clean(parts[j], t);
                let (from, to) = choose|from: int, to: int|
                    0 <= from <= to <= parts[j].len() && #[trigger] parts[j].subrange(from, to) == trimmed(
                        parts[j],
                        Some(t),
                    );
                assert forall|i: int| 0 <= i < all[k].len() implies !separator.contains(
                    #[trigger] all[k][i],
                ) by {
                    assert(all[k][i] == parts[j][from + i]);
                }
            },
            None => {},
        }
    }
}

fn contains_char(set: &str, c: char) -> (found: bool)
    ensures
        found == set@.contains(c),
{
    let n = set.unicode_len();
    let mut i: usize = 0;
    while i < n
        invariant
            i <= n,
            n == set@.len(),
            forall|j: int| 0 <= j < i ==> set@[j] != c,
        decreases n - i,
    {
        if set.get_char(i) == c {
            return true;
        }
        i += 1;
    }
    false
}

fn trim_bounds(piece: &str, trim: &str) -> (bounds: (usize, usize))
    ensures
        bounds.0 <= bounds.1 <= piece@.len(),
        piece@.subrange(bounds.0 as int, bounds.1 as int) == strip_back(strip_front(piece@, trim@), trim@),
{
    let n = piece.unicode_len();
    let mut a: usize = 0;
    proof {
        assert(piece@.skip(0) =~= piece@);
    }
    while a < n && contains_char(trim, piece.get_char(a))
        invariant
            a <= n,
            n == piece@.len(),
            strip_front(piece@, trim@) == strip_front(piece@.skip(a as int), trim@),
        decreases n - a,
    {
        proof {
            assert(piece@.skip(a as int).skip(1) =~= piece@.skip(a + 1));
        }
        a += 1;
    }
    let mut b: usize = n;
    proof {
        assert(piece@.skip(a as int) =~= piece@.subrange(a as int, n as int));
    }
    while b > a && contains_char(trim, piece.get_char(b - 1))
        invariant
            a <= b <= n,
            n == piece@.len(),
            strip_back(strip_front(piece@, trim@), trim@) == strip_back(
                piece@.subrange(a as int, b as int),
                trim@,
            ),
        decreases b,
    {
        proof {
            assert(piece@.subrange(a as int, b as int).drop_last() =~= piece@.subrange(a as int, b - 1));
        }
        b -= 1;
    }
    (a, b)
}

/// Emits one piece: trims it, and adds it to `output` as a row of one
/// string unless it is empty and empty tokens are not allowed.
pub fn send(output: &mut Vec<Row>, trim: &Option<String>, allow_empty: bool, piece: &str)
    ensures
        ({
            let token = trimmed(piece@, trim_view(*trim));
            if kept(token, allow_empty) {
                &&& final(output)@.len() == old(output)@.len() + 1
                &&& final(output)@.drop_last() == old(output)@
                &&& is_token_row(final(output)@.last(), token)
            } else {
                final(output)@ == old(output)@
            }
        }),
{
    let n = piece.unicode_len();
    let (a, b) = match trim {
        Some(t) => trim_bounds(piece, t.as_str()),
        None => {
            proof {
                assert(piece@.subrange(0, n as int) =~= piece@);
            }
            (0, n)
        },
    };
    if allow_empty || a < b {
        let token = String::from_str(piece.substring_char(a, b));
        let mut cells: Vec<Value> = Vec::new();
        cells.push(Value::String(token));
        output.push(Row::new(cells));
        proof {
            assert(output@.drop_last() =~= old(output)@);
        }
    }
}

/// Splits a text into tokens and gives them as rows of one string each.
/// Every separator ends a token; what follows the last of them is a token
/// too, without the line end that closes the text.
pub fn from(text: &str, separator: &str, trim: &Option<String>, allow_empty: bool) -> (rows: Vec<Row>)
    ensures
        are_token_rows(rows@, tokens(text@, separator@, trim_view(*trim), allow_empty)),
{
    let total = text.unicode_len();
    let n = if total > 0 && text.get_char(total - 1) == '\n' && !contains_char(separator, '\n') {
        total - 1
    } else {
        total
    };
    proof {
        assert(text@.take(n as int) =~= content(text@, separator@));
    }
    let mut output: Vec<Row> = Vec::new();
    let mut start: usize = 0;
    let mut i: usize = 0;
    proof {
        assert(text@.take(0) =~= Seq::<char>::empty());
        assert(text@.subrange(0, 0) =~= Seq::<char>::empty());
        assert(pieces(text@.take(0), separator@).drop_last() =~= Seq::<Seq<char>>::empty());
    }
    while i < n
        invariant
            start <= i <= n,
            n <= text@.len(),
            pieces(text@.take(i as int), separator@).last() == text@.subrange(start as int, i as int),
            are_token_rows(
                output@,
                emitted(pieces(text@.take(i as int), separator@).drop_last(), trim_view(*trim), allow_empty),
            ),
        decreases n - i,
    {
        let c = text.get_char(i);
        let ghost before = pieces(text@.take(i as int), separator@);
        let ghost shown = output@;
        proof {
            lemma_pieces_nonempty(text@.take(i as int), separator@);
            assert(text@.take(i + 1).drop_last() =~= text@.take(i as int));
            assert(text@.take(i + 1).last() == c);
        }
        if contains_char(separator, c) {
            send(&mut output, trim, allow_empty, text.substring_char(start, i));
            start = i + 1;
            proof {
                let after = pieces(text@.take(i + 1), separator@);
                assert(after == before.push(Seq::<char>::empty()));
                assert(after.drop_last() =~= before);
                assert(text@.subrange(i + 1, i + 1) =~= Seq::<char>::empty());
                let wanted = emitted(before, trim_view(*trim), allow_empty);
                assert(are_token_rows(output@, wanted)) by {
                    assert forall|k: int| 0 <= k < output@.len() implies is_token_row(
                        #[trigger] output@[k],
                        wanted[k],
                    ) by {
                        if kept(trimmed(before.last(), trim_view(*trim)), allow_empty) && k < shown.len() {
                            assert(output@[k] == output@.drop_last()[k]);
                        }
                    }
                }
            }
        } else {
            proof {
                let after = pieces(text@.take(i + 1), separator@);
                assert(after == before.drop_last().push(before.last().push(c)));
                assert(after.drop_last() =~= before.drop_last());
                assert(text@.subrange(start as int, i + 1) =~= text@.subrange(start as int, i as int).push(c));
            }
        }
        i += 1;
    }
    let ghost before = pieces(content(text@, separator@), separator@);
    let ghost shown = output@;
    proof {
        lemma_pieces_nonempty(content(text@, separator@), separator@);
    }
    send(&mut output, trim, allow_empty, text.substring_char(start, n));
    proof {
        let wanted = emitted(before, trim_view(*trim), allow_empty);
        assert forall|k: int| 0 <= k < output@.len() implies is_token_row(#[trigger] output@[k], wanted[k]) by {
            if kept(trimmed(before.last(), trim_view(*trim)), allow_empty) && k < shown.len() {
                assert(output@[k] == output@.drop_last()[k]);
            }
        }
    }
    output
}

/// The schema of what `from` gives: one string column, `token`.
pub fn output_type() -> (schema: Vec<ColumnType>)
    ensures
        schema@.len() == 1,
        schema@[0].name.is_some(),
        schema@[0].name.unwrap()@ == "token"@,
        schema@[0].cell_type == ValueType::String,
{
    let mut schema: Vec<ColumnType> = Vec::new();
    schema.push(ColumnType::new("token", ValueType::String));
    schema
}

/// The namespace of the splitting command, as a scope under `root`.
pub open spec fn split_namespace(root: usize) -> ScopeModel {
    with_binding(fresh(Some(root)), "from"@, Value::Command(Builtin::SplitFrom))
}

/// The namespace holds the command `from` and nothing else. It reads
/// files, so it may block, and the data settles its output.
pub open spec fn holds_split_commands(namespace: ScopeModel) -> bool {
    &&& registers(namespace, "from"@, Builtin::SplitFrom, true, OutputType::Unknown)
    &&& forall|name: Seq<char>| #[trigger] namespace.bindings.contains_key(name) ==> name == "from"@
}

/// Adds the namespace `split` with its command `from` to `root`.
pub fn declare(scopes: &mut Scopes, root: usize) -> (r: Result<(), JobError>)
    ensures
        r == declare_result(old(scopes)@, root),
        final(scopes)@ == (if r.is_ok() {
            with_namespace(old(scopes)@, root, "split"@, split_namespace(root))
        } else {
            old(scopes)@
        }),
        r.is_ok() ==> holds_split_commands(final(scopes)@[old(scopes)@.len() as int]),
{
    let ns = match scopes.create_namespace(root, "split") {
        Ok(ns) => ns,
        Err(e) => { return Err(e); },
    };
    let ghost base = scopes@;
    proof {
        assert(ns == old(scopes)@.len());
        assert(base.len() == old(scopes)@.len() + 1);
        assert(base[ns as int] == fresh(Some(root)));
    }
    scopes.declare(ns, "from", Value::Command(Builtin::SplitFrom))?;
    proof {
        assert(scopes@.len() == base.len());
        assert(scopes@[ns as int] == split_namespace(root));
        assert(scopes@[root as int] == base[root as int]);
        assert(scopes@ =~= with_namespace(old(scopes)@, root, "split"@, split_namespace(root)));
    }
    Ok(())
}

} // verus!

//! The profile document: a canonical pretty-printed JSON rendering and its
//! parser.
//!
//! A profile is stored as `{ "encrypted": ..., "notes": [...] }` with two
//! spaces of indentation per level, the note fields in a fixed order, and
//! strings escaped as JSON asks.  `serialize_profile` produces exactly this
//! rendering, `parse_profile` reads it back, and `lemma_doc_round_trip`
//! proves that every profile survives the trip unchanged.

use vstd::prelude::*;
use crate::note::{views_of, Item, ItemV, Profile, ProfileV, Status};
use crate::text::{chars_eq, chars_string, push_str_chars, str_chars};

verus! {

/// A decimal digit character.
pub open spec fn ch_digit(c: char) -> bool {
    48 <= c as u32 <= 57
}

/// Its value.
pub open spec fn ch_dval(c: char) -> int {
    c as u32 - 48
}

/// The character for a digit value below ten, `0` through `9`.
pub open spec fn digit_ch(v: int) -> char {
    ((48 + v) as u8) as char
}

/// A lowercase hex digit character.
pub open spec fn ch_hex(c: char) -> bool {
    ch_digit(c) || (97 <= c as u32 <= 102)
}

/// Its value.
pub open spec fn ch_hval(c: char) -> int {
    if ch_digit(c) {
        ch_dval(c)
    } else {
        c as u32 - 87
    }
}

/// The character for a hex digit value below sixteen, lowercase.
pub open spec fn hex_ch(v: int) -> char {
    if v < 10 {
        ((48 + v) as u8) as char
    } else {
        ((87 + v) as u8) as char
    }
}

/// How one character is written inside a JSON string: itself, a two-char
/// escape for quote, backslash, newline, carriage return, and tab, or a
/// `\u00..` escape for the remaining control characters.
pub open spec fn esc_char(c: char) -> Seq<char> {
    if c == '"' {
        seq!['\\', '"']
    } else if c == '\\' {
        seq!['\\', '\\']
    } else if c == '\n' {
        seq!['\\', 'n']
    } else if c == '\r' {
        seq!['\\', 'r']
    } else if c == '\t' {
        seq!['\\', 't']
    } else if (c as u32) < 32 {
        seq!['\\', 'u', '0', '0', hex_ch(c as u32 as int / 16), hex_ch(c as u32 as int % 16)]
    } else {
        seq![c]
    }
}

/// A whole string escaped, character by character.
pub open spec fn esc(t: Seq<char>) -> Seq<char>
    decreases t.len(),
{
    if t.len() == 0 {
        Seq::<char>::empty()
    } else {
        esc_char(t[0]) + esc(t.drop_first())
    }
}

/// The decimal digits of a number, most significant first.
pub open spec fn dec_digits(n: int) -> Seq<char>
    recommends
        n >= 0,
    decreases n,
{
    if n < 10 {
        seq![digit_ch(n)]
    } else {
        dec_digits(n / 10) + seq![digit_ch(n % 10)]
    }
}

/// The number a digit sequence denotes, most significant first.
pub open spec fn mval(d: Seq<char>) -> int
    decreases d.len(),
{
    if d.len() == 0 {
        0
    } else {
        ch_dval(d[0]) * pow10c((d.len() - 1) as nat) + mval(d.drop_first())
    }
}

/// Ten to the `k`.
pub open spec fn pow10c(k: nat) -> int
    decreases k,
{
    if k == 0 {
        1
    } else {
        10 * pow10c((k - 1) as nat)
    }
}

/// Expect this literal at position `i`: the position after it, or nothing.
pub open spec fn sp_lit(s: Seq<char>, i: int, lit: Seq<char>) -> Option<int> {
    if 0 <= i && i + lit.len() <= s.len() && s.subrange(i, i + lit.len()) == lit {
        Some(i + lit.len())
    } else {
        None
    }
}

/// Consume digits from position `i`, accumulating onto `acc`; stops at the
/// first non-digit.
pub open spec fn sp_num_rest(s: Seq<char>, i: int, acc: int) -> (int, int)
    recommends
        0 <= i <= s.len(),
    decreases s.len() - i,
{
    if 0 <= i < s.len() && ch_digit(s[i]) {
        sp_num_rest(s, i + 1, acc * 10 + ch_dval(s[i]))
    } else {
        (acc, i)
    }
}

/// A number at position `i`: at least one digit, value within `usize`.
pub open spec fn sp_num(s: Seq<char>, i: int) -> Option<(int, int)> {
    if 0 <= i < s.len() && ch_digit(s[i]) {
        let (v, j) = sp_num_rest(s, i, 0);
        if v <= usize::MAX {
            Some((v, j))
        } else {
            None
        }
    } else {
        None
    }
}

/// The body of a JSON string from position `i` up to and including its
/// closing quote: the characters it denotes and the position after the
/// quote.
pub open spec fn sp_strbody(s: Seq<char>, i: int) -> Option<(Seq<char>, int)>
    decreases s.len() - i,
{
    if !(0 <= i < s.len()) {
        None
    } else {
        let c = s[i];
        if c == '"' {
            Some((Seq::<char>::empty(), i + 1))
        } else if c == '\\' {
            if i + 1 >= s.len() {
                None
            } else {
                let e = s[i + 1];
                if e == '"' || e == '\\' {
                    sp_strbody_cons(e, sp_strbody(s, i + 2))
                } else if e == 'n' {
                    sp_strbody_cons('\n', sp_strbody(s, i + 2))
                } else if e == 'r' {
                    sp_strbody_cons('\r', sp_strbody(s, i + 2))
                } else if e == 't' {
                    sp_strbody_cons('\t', sp_strbody(s, i + 2))
                } else if e == 'u' {
                    if i + 6 <= s.len() && s[i + 2] == '0' && s[i + 3] == '0' && ch_hex(s[i + 4])
                        && ch_hex(s[i + 5]) {
                        let v = ch_hval(s[i + 4]) * 16 + ch_hval(s[i + 5]);
                        sp_strbody_cons(char_of_code(v), sp_strbody(s, i + 6))
                    } else {
                        None
                    }
                } else {
                    None
                }
            }
        } else {
            sp_strbody_cons(c, sp_strbody(s, i + 1))
        }
    }
}

/// Prepend a decoded character to a string-body result.
pub open spec fn sp_strbody_cons(c: char, r: Option<(Seq<char>, int)>) -> Option<
    (Seq<char>, int),
> {
    match r {
        Some((t, j)) => Some((seq![c] + t, j)),
        None => None,
    }
}

/// A character that is written as itself inside a JSON string.
pub open spec fn plain_char(c: char) -> bool {
    c != '"' && c != '\\' && c != '\n' && c != '\r' && c != '\t' && c as u32 >= 32
}

/// Parsing an escaped string followed by its closing quote yields the
/// string back, with the position after the quote.
proof fn lemma_sp_esc(s: Seq<char>, i: int, t: Seq<char>)
    requires
        0 <= i,
        i + esc(t).len() + 1 <= s.len(),
        s.subrange(i, i + esc(t).len()) == esc(t),
        s[i + esc(t).len()] == '"',
    ensures
        sp_strbody(s, i) == Some((t, i + esc(t).len() + 1)),
    decreases t.len(),
{
    if t.len() == 0 {
        assert(s[i] == '"');
    } else {
        let c = t[0];
        let ec = esc_char(c);
        let rest = esc(t.drop_first());
        assert(esc(t) == ec + rest);
        assert forall|k: int| 0 <= k < ec.len() implies s[i + k] == ec[k] by {
            assert(s.subrange(i, i + esc(t).len())[k] == s[i + k]);
            assert((ec + rest)[k] == ec[k]);
        }
        assert(s[i + 0] == ec[0]);
        if ec.len() >= 2 {
            assert(s[i + 1] == ec[1]);
        }
        if ec.len() == 6 {
            assert(s[i + 2] == ec[2]);
            assert(s[i + 3] == ec[3]);
            assert(s[i + 4] == ec[4]);
            assert(s[i + 5] == ec[5]);
        }
        assert(s.subrange(i + ec.len(), i + ec.len() + rest.len()) =~= rest) by {
            assert forall|k: int| 0 <= k < rest.len() implies s.subrange(
                i + ec.len(),
                i + ec.len() + rest.len(),
            )[k] == rest[k] by {
                assert(s.subrange(i, i + esc(t).len())[ec.len() + k] == s[i + ec.len() + k]);
                assert((ec + rest)[ec.len() + k] == rest[k]);
            }
        }
        lemma_sp_esc(s, i + ec.len(), t.drop_first());
        if c == '"' {
            assert(s[i] == '\\' && s[i + 1] == '"');
            assert(seq![c] + t.drop_first() =~= t);
        } else if c == '\\' {
            assert(s[i] == '\\' && s[i + 1] == '\\');
            assert(seq![c] + t.drop_first() =~= t);
        } else if c == '\n' {
            assert(s[i] == '\\' && s[i + 1] == 'n');
            assert(seq![c] + t.drop_first() =~= t);
        } else if c == '\r' {
            assert(s[i] == '\\' && s[i + 1] == 'r');
            assert(seq![c] + t.drop_first() =~= t);
        } else if c == '\t' {
            assert(s[i] == '\\' && s[i + 1] == 't');
            assert(seq![c] + t.drop_first() =~= t);
        } else if (c as u32) < 32 {
            let v = c as u32 as int;
            assert(s[i] == '\\' && s[i + 1] == 'u' && s[i + 2] == '0' && s[i + 3] == '0');
            assert(s[i + 4] == hex_ch(v / 16) && s[i + 5] == hex_ch(v % 16));
            lemma_hex_ch(v / 16);
            lemma_hex_ch(v % 16);
            assert(ch_hval(hex_ch(v / 16)) == v / 16 && ch_hval(hex_ch(v % 16)) == v % 16);
            assert(ch_hval(s[i + 4]) * 16 + ch_hval(s[i + 5]) == v);
            lemma_char_roundtrip(c);
            assert(char_of_code(v) == c);
            assert(seq![c] + t.drop_first() =~= t);
        } else {
            assert(plain_char(c));
            assert(s[i] == c);
            assert(seq![c] + t.drop_first() =~= t);
        }
    }
}

/// The character with this code point below 256.
pub open spec fn char_of_code(v: int) -> char {
    (v as u8) as char
}

/// A control character survives the trip through its code point.
proof fn lemma_char_roundtrip(c: char)
    requires
        (c as u32) < 32,
    ensures
        char_of_code((c as u32) as int) == c,
{
}

/// A hex digit character round-trips through its value.
proof fn lemma_hex_ch(v: int)
    requires
        0 <= v < 16,
    ensures
        ch_hex(hex_ch(v)),
        ch_hval(hex_ch(v)) == v,
{
}

/// Digit characters carry their values.
proof fn lemma_digit_ch(v: int)
    requires
        0 <= v < 10,
    ensures
        ch_digit(digit_ch(v)),
        ch_dval(digit_ch(v)) == v,
{
}

/// The decimal rendering of a number is all digits and denotes it.
proof fn lemma_dec_digits(n: int)
    requires
        n >= 0,
    ensures
        dec_digits(n).len() >= 1,
        forall|k: int| 0 <= k < dec_digits(n).len() ==> ch_digit(#[trigger] dec_digits(n)[k]),
        mval(dec_digits(n)) == n,
    decreases n,
{
    if n < 10 {
        lemma_digit_ch(n);
        assert(dec_digits(n) == seq![digit_ch(n)]);
        assert(dec_digits(n).drop_first() =~= Seq::<char>::empty());
        assert(mval(Seq::<char>::empty()) == 0);
        assert(pow10c(0nat) == 1);
        assert(ch_dval(digit_ch(n)) * pow10c(0nat) == ch_dval(digit_ch(n))) by (nonlinear_arith)
            requires
                pow10c(0nat) == 1,
        ;
    } else {
        lemma_dec_digits(n / 10);
        lemma_digit_ch(n % 10);
        lemma_mval_snoc(dec_digits(n / 10), digit_ch(n % 10));
        assert(dec_digits(n / 10) + seq![digit_ch(n % 10)] =~= dec_digits(n / 10).push(
            digit_ch(n % 10),
        ));
    }
}

/// Appending a digit multiplies the value by ten and adds it.
proof fn lemma_mval_snoc(d: Seq<char>, c: char)
    ensures
        mval(d.push(c)) == mval(d) * 10 + ch_dval(c),
    decreases d.len(),
{
    if d.len() == 0 {
        assert(d.push(c)[0] == c);
        assert(d.push(c).drop_first() =~= Seq::<char>::empty());
        assert(mval(Seq::<char>::empty()) == 0);
        assert(pow10c(0nat) == 1);
        assert(ch_dval(c) * pow10c(0nat) == ch_dval(c)) by (nonlinear_arith)
            requires
                pow10c(0nat) == 1,
        ;
    } else {
        assert(d.push(c)[0] == d[0]);
        assert(d.push(c).drop_first() =~= d.drop_first().push(c));
        lemma_mval_snoc(d.drop_first(), c);
        let k = (d.len() - 1) as nat;
        assert(pow10c((d.push(c).len() - 1) as nat) == 10 * pow10c(k));
        assert(ch_dval(d[0]) * (10 * pow10c(k)) == (ch_dval(d[0]) * pow10c(k)) * 10)
            by (nonlinear_arith);
    }
}

/// Consuming a digit sequence followed by a non-digit accumulates its
/// value.
proof fn lemma_sp_num_rest(s: Seq<char>, i: int, d: Seq<char>, acc: int)
    requires
        0 <= i,
        i + d.len() <= s.len(),
        s.subrange(i, i + d.len()) == d,
        forall|k: int| 0 <= k < d.len() ==> ch_digit(#[trigger] d[k]),
        i + d.len() == s.len() || !ch_digit(s[i + d.len()]),
    ensures
        sp_num_rest(s, i, acc) == (acc * pow10c(d.len() as nat) + mval(d), i + d.len()),
    decreases d.len(),
{
    if d.len() == 0 {
        if i < s.len() {
            assert(!ch_digit(s[i]));
        }
        assert(pow10c(0nat) == 1);
        assert(acc * pow10c(0nat) == acc) by (nonlinear_arith)
            requires
                pow10c(0nat) == 1,
        ;
    } else {
        assert(s[i] == d[0]) by {
            assert(s.subrange(i, i + d.len())[0] == s[i]);
        }
        assert(ch_digit(s[i]));
        assert(s.subrange(i + 1, i + d.len()) =~= d.drop_first()) by {
            assert forall|k: int| 0 <= k < d.len() - 1 implies s.subrange(i + 1, i + d.len())[k]
                == d.drop_first()[k] by {
                assert(s.subrange(i, i + d.len())[k + 1] == s[i + k + 1]);
            }
        }
        lemma_sp_num_rest(s, i + 1, d.drop_first(), acc * 10 + ch_dval(d[0]));
        let k = (d.len() - 1) as nat;
        assert((acc * 10 + ch_dval(d[0])) * pow10c(k) == acc * (10 * pow10c(k)) + ch_dval(d[0])
            * pow10c(k)) by (nonlinear_arith);
        assert(pow10c(d.len() as nat) == 10 * pow10c(k));
    }
}

/// Parsing the decimal rendering of a number bounded by `usize` yields it.
proof fn lemma_sp_num(s: Seq<char>, i: int, n: int)
    requires
        0 <= n <= usize::MAX,
        0 <= i,
        i + dec_digits(n).len() <= s.len(),
        s.subrange(i, i + dec_digits(n).len()) == dec_digits(n),
        i + dec_digits(n).len() == s.len() || !ch_digit(s[i + dec_digits(n).len()]),
    ensures
        sp_num(s, i) == Some((n, i + dec_digits(n).len())),
{
    lemma_dec_digits(n);
    assert(s[i] == dec_digits(n)[0]) by {
        assert(s.subrange(i, i + dec_digits(n).len())[0] == s[i]);
    }
    lemma_sp_num_rest(s, i, dec_digits(n), 0);
}

/// A literal sitting at its position parses past itself.
proof fn lemma_sp_lit(s: Seq<char>, i: int, lit: Seq<char>)
    requires
        0 <= i,
        i + lit.len() <= s.len(),
        s.subrange(i, i + lit.len()) == lit,
    ensures
        sp_lit(s, i, lit) == Some(i + lit.len()),
{
}

/// The fragment `frag` sits at position `i` of `s`.
pub open spec fn at(s: Seq<char>, i: int, frag: Seq<char>) -> bool {
    0 <= i && i + frag.len() <= s.len() && s.subrange(i, i + frag.len()) == frag
}

/// A concatenation sits at a position exactly when its parts sit at their
/// positions in turn.
proof fn lemma_at_split(s: Seq<char>, i: int, a: Seq<char>, b: Seq<char>)
    requires
        at(s, i, a + b),
    ensures
        at(s, i, a),
        at(s, i + a.len(), b),
{
    assert(s.subrange(i, i + a.len()) =~= a) by {
        assert forall|k: int| 0 <= k < a.len() implies s.subrange(i, i + a.len())[k] == a[k] by {
            assert(s.subrange(i, i + (a + b).len())[k] == s[i + k]);
            assert((a + b)[k] == a[k]);
        }
    }
    assert(s.subrange(i + a.len(), i + a.len() + b.len()) =~= b) by {
        assert forall|k: int| 0 <= k < b.len() implies s.subrange(
            i + a.len(),
            i + a.len() + b.len(),
        )[k] == b[k] by {
            assert(s.subrange(i, i + (a + b).len())[a.len() + k] == s[i + a.len() + k]);
            assert((a + b)[a.len() + k] == b[k]);
        }
    }
}

/// The opening of the document, through the `encrypted` field's value.
pub open spec fn lit_head() -> Seq<char> {
    "{\n  \"encrypted\": "@
}

/// The `notes` field's opening, after the `encrypted` value.
pub open spec fn lit_notes() -> Seq<char> {
    ",\n  \"notes\": "@
}

/// An empty notes list.
pub open spec fn lit_empty_list() -> Seq<char> {
    "[]"@
}

/// A non-empty notes list's opening.
pub open spec fn lit_list_open() -> Seq<char> {
    "[\n"@
}

/// A note object's opening, through its `id` field.
pub open spec fn lit_item_open() -> Seq<char> {
    "    {\n      \"id\": "@
}

/// The `title` field's opening, through its opening quote.
pub open spec fn lit_title() -> Seq<char> {
    ",\n      \"title\": \""@
}

/// The `status` field's opening, through its opening quote.
pub open spec fn lit_status() -> Seq<char> {
    ",\n      \"status\": \""@
}

/// The `body` field's opening, through its opening quote.
pub open spec fn lit_body() -> Seq<char> {
    ",\n      \"body\": \""@
}

/// The `last_touched` field's opening, through its opening quote.
pub open spec fn lit_touched() -> Seq<char> {
    ",\n      \"last_touched\": \""@
}

/// A note object's closing brace.
pub open spec fn lit_item_end() -> Seq<char> {
    "\n    }"@
}

/// The separator between notes.
pub open spec fn lit_sep() -> Seq<char> {
    ",\n"@
}

/// A non-empty notes list's closing bracket.
pub open spec fn lit_list_end() -> Seq<char> {
    "\n  ]"@
}

/// The document's closing brace.
pub open spec fn lit_tail() -> Seq<char> {
    "\n}"@
}

/// How a status is written: the empty string, `Started`, or `Urgent`.
pub open spec fn status_tok(st: Status) -> Seq<char> {
    match st {
        Status::Blank => Seq::<char>::empty(),
        Status::Started => "Started"@,
        Status::Urgent => "Urgent"@,
    }
}

/// The status a token denotes, if any.
pub open spec fn sp_status_tok(t: Seq<char>) -> Option<Status> {
    if t.len() == 0 {
        Some(Status::Blank)
    } else if t == "Started"@ {
        Some(Status::Started)
    } else if t == "Urgent"@ {
        Some(Status::Urgent)
    } else {
        None
    }
}

/// One note, rendered: its fields in order, each string escaped and
/// quoted.
pub open spec fn doc_item(n: ItemV) -> Seq<char> {
    lit_item_open() + (dec_digits(n.id as int) + (lit_title() + (esc(n.title) + (seq!['"'] + (
    lit_status() + (esc(status_tok(n.status)) + (seq!['"'] + (lit_body() + (esc(n.body) + (
    seq!['"'] + (lit_touched() + (esc(n.last_touched) + (seq!['"'] + lit_item_end())))))))))))))
}

/// One or more notes, rendered and separated by commas.
pub open spec fn doc_items(notes: Seq<ItemV>) -> Seq<char>
    recommends
        notes.len() >= 1,
    decreases notes.len(),
{
    if notes.len() <= 1 {
        doc_item(notes[0])
    } else {
        doc_item(notes[0]) + (lit_sep() + doc_items(notes.drop_first()))
    }
}

/// The notes list, rendered: `[]` when empty.
pub open spec fn doc_notes(notes: Seq<ItemV>) -> Seq<char> {
    if notes.len() == 0 {
        lit_empty_list()
    } else {
        lit_list_open() + (doc_items(notes) + lit_list_end())
    }
}

/// The whole document a profile renders to.
pub open spec fn doc_of(p: ProfileV) -> Seq<char> {
    lit_head() + ((if p.encrypted {
        "true"@
    } else {
        "false"@
    }) + (lit_notes() + (doc_notes(p.notes) + lit_tail())))
}

/// A quoted string field: its opening literal (which ends with the opening
/// quote), then the string's body through its closing quote.
pub open spec fn sp_field(s: Seq<char>, i: int, lit: Seq<char>) -> Option<(Seq<char>, int)> {
    match sp_lit(s, i, lit) {
        Some(j) => sp_strbody(s, j),
        None => None,
    }
}

/// One note, parsed: its opening, id, four string fields, and closing.
pub open spec fn sp_item(s: Seq<char>, i: int) -> Option<(ItemV, int)> {
    match sp_lit(s, i, lit_item_open()) {
        None => None,
        Some(i1) => match sp_num(s, i1) {
            None => None,
            Some((idv, i2)) => match sp_field(s, i2, lit_title()) {
                None => None,
                Some((title, i3)) => match sp_field(s, i3, lit_status()) {
                    None => None,
                    Some((tok, i4)) => match sp_status_tok(tok) {
                        None => None,
                        Some(st) => match sp_field(s, i4, lit_body()) {
                            None => None,
                            Some((body, i5)) => match sp_field(s, i5, lit_touched()) {
                                None => None,
                                Some((lt, i6)) => match sp_lit(s, i6, lit_item_end()) {
                                    None => None,
                                    Some(i7) => Some(
                                        (
                                            ItemV {
                                                id: idv as usize,
                                                title,
                                                status: st,
                                                body,
                                                last_touched: lt,
                                            },
                                            i7,
                                        ),
                                    ),
                                },
                            },
                        },
                    },
                },
            },
        },
    }
}

/// One or more notes, parsed: a note, then either a separator and more
/// notes, or the list's closing bracket.
pub open spec fn sp_items(s: Seq<char>, i: int) -> Option<(Seq<ItemV>, int)>
    decreases s.len() - i,
{
    if !(0 <= i <= s.len()) {
        None
    } else {
        match sp_item(s, i) {
            None => None,
            Some((n, j)) => {
                if !(i < j <= s.len()) {
                    None
                } else {
                    match sp_lit(s, j, lit_sep()) {
                        Some(j2) => {
                            if !(j < j2 <= s.len()) {
                                None
                            } else {
                                match sp_items(s, j2) {
                                    None => None,
                                    Some((rest, j3)) => Some((seq![n] + rest, j3)),
                                }
                            }
                        },
                        None => match sp_lit(s, j, lit_list_end()) {
                            Some(j3) => Some((seq![n], j3)),
                            None => None,
                        },
                    }
                }
            },
        }
    }
}

/// The `encrypted` value, parsed.
pub open spec fn sp_bool(s: Seq<char>, i: int) -> Option<(bool, int)> {
    match sp_lit(s, i, "true"@) {
        Some(j) => Some((true, j)),
        None => match sp_lit(s, i, "false"@) {
            Some(j) => Some((false, j)),
            None => None,
        },
    }
}

/// The notes list, parsed.
pub open spec fn sp_notes(s: Seq<char>, i: int) -> Option<(Seq<ItemV>, int)> {
    match sp_lit(s, i, lit_empty_list()) {
        Some(j) => Some((Seq::<ItemV>::empty(), j)),
        None => match sp_lit(s, i, lit_list_open()) {
            Some(j) => sp_items(s, j),
            None => None,
        },
    }
}

/// A whole document, parsed; the document must end with the closing brace.
pub open spec fn sp_profile(s: Seq<char>) -> Option<ProfileV> {
    match sp_lit(s, 0, lit_head()) {
        None => None,
        Some(i1) => match sp_bool(s, i1) {
            None => None,
            Some((enc, i2)) => match sp_lit(s, i2, lit_notes()) {
                None => None,
                Some(i3) => match sp_notes(s, i3) {
                    None => None,
                    Some((notes, i4)) => match sp_lit(s, i4, lit_tail()) {
                        None => None,
                        Some(i5) => {
                            if i5 == s.len() {
                                Some(ProfileV { encrypted: enc, notes })
                            } else {
                                None
                            }
                        },
                    },
                },
            },
        },
    }
}

/// The tokens round-trip through `sp_status_tok`.
proof fn lemma_status_tok(st: Status)
    ensures
        sp_status_tok(status_tok(st)) == Some(st),
{
    reveal_strlit("Started");
    reveal_strlit("Urgent");
}

/// A quoted string field sitting at its position parses back.
proof fn lemma_sp_field(s: Seq<char>, i: int, lit: Seq<char>, t: Seq<char>)
    requires
        at(s, i, lit),
        at(s, i + lit.len(), esc(t)),
        i + lit.len() + esc(t).len() + 1 <= s.len(),
        s[i + lit.len() + esc(t).len()] == '"',
    ensures
        sp_field(s, i, lit) == Some((t, i + lit.len() + esc(t).len() + 1)),
{
    lemma_sp_lit(s, i, lit);
    lemma_sp_esc(s, i + lit.len(), t);
}

/// A rendered note sitting at its position parses back to itself.
#[verifier::rlimit(100)]
proof fn lemma_sp_item(s: Seq<char>, i: int, n: ItemV)
    requires
        at(s, i, doc_item(n)),
    ensures
        sp_item(s, i) == Some((n, i + doc_item(n).len())),
{
    reveal_strlit("    {\n      \"id\": ");
    reveal_strlit(",\n      \"title\": \"");
    reveal_strlit(",\n      \"status\": \"");
    reveal_strlit(",\n      \"body\": \"");
    reveal_strlit(",\n      \"last_touched\": \"");
    reveal_strlit("\n    }");
    let a1 = lit_item_open();
    let a2 = dec_digits(n.id as int);
    let q: Seq<char> = seq!['"'];
    let r2 = lit_title() + (esc(n.title) + (q + (lit_status() + (esc(status_tok(n.status)) + (q
        + (lit_body() + (esc(n.body) + (q + (lit_touched() + (esc(n.last_touched) + (q
        + lit_item_end())))))))))));
    let r3 = esc(n.title) + (q + (lit_status() + (esc(status_tok(n.status)) + (q + (lit_body() + (
    esc(n.body) + (q + (lit_touched() + (esc(n.last_touched) + (q + lit_item_end()))))))))));
    lemma_at_split(s, i, a1, a2 + r2);
    let i1 = i + a1.len();
    lemma_at_split(s, i1, a2, r2);
    let i2 = i1 + a2.len();
    lemma_at_split(s, i2, lit_title(), r3);
    lemma_sp_lit(s, i, a1);
    // the id's digits end where the title literal's comma begins
    assert(s[i2] == lit_title()[0]) by {
        assert(s.subrange(i2, i2 + lit_title().len())[0] == s[i2]);
    }
    assert(!ch_digit(s[i2]));
    lemma_dec_digits(n.id as int);
    assert(s.subrange(i1, i1 + a2.len()) == a2);
    lemma_sp_num(s, i1, n.id as int);
    // title
    let i3 = i2 + lit_title().len();
    let r4 = q + (lit_status() + (esc(status_tok(n.status)) + (q + (lit_body() + (esc(n.body) + (
    q + (lit_touched() + (esc(n.last_touched) + (q + lit_item_end())))))))));
    lemma_at_split(s, i3, esc(n.title), r4);
    let i4 = i3 + esc(n.title).len();
    let r5 = lit_status() + (esc(status_tok(n.status)) + (q + (lit_body() + (esc(n.body) + (q + (
    lit_touched() + (esc(n.last_touched) + (q + lit_item_end()))))))));
    lemma_at_split(s, i4, q, r5);
    assert(s[i4] == '"') by {
        assert(s.subrange(i4, i4 + 1)[0] == s[i4]);
    }
    lemma_sp_field(s, i2, lit_title(), n.title);
    // status
    let i5 = i4 + 1;
    let r6 = esc(status_tok(n.status)) + (q + (lit_body() + (esc(n.body) + (q + (lit_touched() + (
    esc(n.last_touched) + (q + lit_item_end())))))));
    lemma_at_split(s, i5, lit_status(), r6);
    let i6 = i5 + lit_status().len();
    let r7 = q + (lit_body() + (esc(n.body) + (q + (lit_touched() + (esc(n.last_touched) + (q
        + lit_item_end()))))));
    lemma_at_split(s, i6, esc(status_tok(n.status)), r7);
    let i7 = i6 + esc(status_tok(n.status)).len();
    let r8 = lit_body() + (esc(n.body) + (q + (lit_touched() + (esc(n.last_touched) + (q
        + lit_item_end())))));
    lemma_at_split(s, i7, q, r8);
    assert(s[i7] == '"') by {
        assert(s.subrange(i7, i7 + 1)[0] == s[i7]);
    }
    lemma_sp_field(s, i5, lit_status(), status_tok(n.status));
    lemma_status_tok(n.status);
    // body
    let i8 = i7 + 1;
    let r9 = esc(n.body) + (q + (lit_touched() + (esc(n.last_touched) + (q + lit_item_end()))));
    lemma_at_split(s, i8, lit_body(), r9);
    let i9 = i8 + lit_body().len();
    let r10 = q + (lit_touched() + (esc(n.last_touched) + (q + lit_item_end())));
    lemma_at_split(s, i9, esc(n.body), r10);
    let i10 = i9 + esc(n.body).len();
    let r11 = lit_touched() + (esc(n.last_touched) + (q + lit_item_end()));
    lemma_at_split(s, i10, q, r11);
    assert(s[i10] == '"') by {
        assert(s.subrange(i10, i10 + 1)[0] == s[i10]);
    }
    lemma_sp_field(s, i8, lit_body(), n.body);
    // last_touched
    let i11 = i10 + 1;
    let r12 = esc(n.last_touched) + (q + lit_item_end());
    lemma_at_split(s, i11, lit_touched(), r12);
    let i12 = i11 + lit_touched().len();
    let r13 = q + lit_item_end();
    lemma_at_split(s, i12, esc(n.last_touched), r13);
    let i13 = i12 + esc(n.last_touched).len();
    lemma_at_split(s, i13, q, lit_item_end());
    assert(s[i13] == '"') by {
        assert(s.subrange(i13, i13 + 1)[0] == s[i13]);
    }
    lemma_sp_field(s, i11, lit_touched(), n.last_touched);
    // closing brace
    let i14 = i13 + 1;
    lemma_sp_lit(s, i14, lit_item_end());
    assert((n.id as int) as usize == n.id);
    assert(ItemV {
        id: n.id,
        title: n.title,
        status: n.status,
        body: n.body,
        last_touched: n.last_touched,
    } =~= n);
}

/// Rendered notes followed by the list's closing bracket parse back.
#[verifier::rlimit(100)]
proof fn lemma_sp_items(s: Seq<char>, i: int, notes: Seq<ItemV>)
    requires
        notes.len() >= 1,
        at(s, i, doc_items(notes) + lit_list_end()),
    ensures
        sp_items(s, i) == Some((notes, i + doc_items(notes).len() + lit_list_end().len())),
    decreases notes.len(),
{
    reveal_strlit("    {\n      \"id\": ");
    reveal_strlit(",\n");
    reveal_strlit("\n  ]");
    let n0 = notes[0];
    if notes.len() == 1 {
        lemma_at_split(s, i, doc_item(n0), lit_list_end());
        lemma_sp_item(s, i, n0);
        let j = i + doc_item(n0).len();
        // no separator here: the list closes instead
        assert(s[j] == lit_list_end()[0]) by {
            assert(s.subrange(j, j + lit_list_end().len())[0] == s[j]);
        }
        assert(sp_lit(s, j, lit_sep()) is None) by {
            if j + lit_sep().len() <= s.len() && s.subrange(j, j + lit_sep().len()) == lit_sep() {
                assert(s.subrange(j, j + lit_sep().len())[0] == s[j]);
            }
        }
        lemma_sp_lit(s, j, lit_list_end());
        assert(seq![n0] =~= notes);
    } else {
        let rest = notes.drop_first();
        assert(doc_items(notes) == doc_item(n0) + (lit_sep() + doc_items(rest)));
        assert(doc_items(notes) + lit_list_end() =~= doc_item(n0) + ((lit_sep() + (doc_items(rest)
            + lit_list_end()))));
        lemma_at_split(s, i, doc_item(n0), lit_sep() + (doc_items(rest) + lit_list_end()));
        lemma_sp_item(s, i, n0);
        let j = i + doc_item(n0).len();
        lemma_at_split(s, j, lit_sep(), doc_items(rest) + lit_list_end());
        lemma_sp_lit(s, j, lit_sep());
        let j2 = j + lit_sep().len();
        lemma_sp_items(s, j2, rest);
        assert(seq![n0] + rest =~= notes);
    }
}

/// The whole rendering of a profile parses back to it.
#[verifier::rlimit(100)]
pub proof fn lemma_doc_round_trip(p: ProfileV)
    ensures
        sp_profile(doc_of(p)) == Some(p),
{
    reveal_strlit("{\n  \"encrypted\": ");
    reveal_strlit("true");
    reveal_strlit("false");
    reveal_strlit(",\n  \"notes\": ");
    reveal_strlit("[]");
    reveal_strlit("[\n");
    reveal_strlit("\n  ]");
    reveal_strlit("\n}");
    let s = doc_of(p);
    let b = if p.encrypted {
        "true"@
    } else {
        "false"@
    };
    assert(s.subrange(0, s.len() as int) =~= s);
    assert(at(s, 0, lit_head() + (b + (lit_notes() + (doc_notes(p.notes) + lit_tail())))));
    lemma_at_split(s, 0, lit_head(), b + (lit_notes() + (doc_notes(p.notes) + lit_tail())));
    lemma_sp_lit(s, 0, lit_head());
    let i1 = lit_head().len() as int;
    lemma_at_split(s, i1, b, lit_notes() + (doc_notes(p.notes) + lit_tail()));
    lemma_sp_lit(s, i1, b);
    if !p.encrypted {
        // `true` does not match where `false` is written
        assert(s[i1] == b[0]) by {
            assert(s.subrange(i1, i1 + b.len())[0] == s[i1]);
        }
        assert(sp_lit(s, i1, "true"@) is None) by {
            if i1 + "true"@.len() <= s.len() && s.subrange(i1, i1 + "true"@.len()) == "true"@ {
                assert(s.subrange(i1, i1 + "true"@.len())[0] == s[i1]);
            }
        }
    }
    let i2 = i1 + b.len();
    lemma_at_split(s, i2, lit_notes(), doc_notes(p.notes) + lit_tail());
    lemma_sp_lit(s, i2, lit_notes());
    let i3 = i2 + lit_notes().len();
    lemma_at_split(s, i3, doc_notes(p.notes), lit_tail());
    let i4 = i3 + doc_notes(p.notes).len();
    lemma_sp_lit(s, i4, lit_tail());
    if p.notes.len() == 0 {
        lemma_sp_lit(s, i3, lit_empty_list());
    } else {
        reveal_strlit("    {\n      \"id\": ");
        assert(doc_notes(p.notes) == lit_list_open() + (doc_items(p.notes) + lit_list_end()));
        lemma_at_split(s, i3, lit_list_open(), doc_items(p.notes) + lit_list_end());
        // `[]` does not match where `[` and a newline are written
        assert(s[i3 + 1] == lit_list_open()[1]) by {
            assert(s.subrange(i3, i3 + lit_list_open().len())[1] == s[i3 + 1]);
        }
        assert(sp_lit(s, i3, lit_empty_list()) is None) by {
            if i3 + lit_empty_list().len() <= s.len() && s.subrange(
                i3,
                i3 + lit_empty_list().len(),
            ) == lit_empty_list() {
                assert(s.subrange(i3, i3 + lit_empty_list().len())[1] == s[i3 + 1]);
            }
        }
        lemma_sp_lit(s, i3, lit_list_open());
        lemma_sp_items(s, i3 + lit_list_open().len(), p.notes);
    }
    assert(ProfileV { encrypted: p.encrypted, notes: p.notes } =~= p);
}

/// Escaping one more character appends its escape.
proof fn lemma_esc_snoc(a: Seq<char>, c: char)
    ensures
        esc(a.push(c)) == esc(a) + esc_char(c),
    decreases a.len(),
{
    if a.len() == 0 {
        assert(a.push(c)[0] == c);
        assert(a.push(c).drop_first() =~= Seq::<char>::empty());
        assert(esc(Seq::<char>::empty()) == Seq::<char>::empty());
        assert(esc(a) == Seq::<char>::empty());
        assert(esc_char(c) + Seq::<char>::empty() =~= esc_char(c));
        assert(esc(a.push(c)) =~= esc(a) + esc_char(c));
    } else {
        assert(a.push(c)[0] == a[0]);
        assert(a.push(c).drop_first() =~= a.drop_first().push(c));
        lemma_esc_snoc(a.drop_first(), c);
        assert(esc_char(a[0]) + (esc(a.drop_first()) + esc_char(c)) =~= (esc_char(a[0]) + esc(
            a.drop_first(),
        )) + esc_char(c));
        assert(esc(a.push(c)) =~= esc(a) + esc_char(c));
    }
}

/// Append a string's characters, escaped for a JSON string.
fn push_escaped(out: &mut Vec<char>, t: &str)
    ensures
        final(out)@ == old(out)@ + esc(t@),
{
    let cs: Vec<char> = str_chars(t);
    let ghost base = out@;
    let mut i: usize = 0;
    proof {
        assert(cs@.take(0int) =~= Seq::<char>::empty());
        assert(base + esc(cs@.take(0int)) =~= base);
    }
    while i < cs.len()
        invariant
            i <= cs@.len(),
            cs@ == t@,
            out@ == base + esc(cs@.take(i as int)),
        decreases cs@.len() - i,
    {
        let c = cs[i];
        let ghost pre = out@;
        if c == '"' {
            out.push('\\');
            out.push('"');
        } else if c == '\\' {
            out.push('\\');
            out.push('\\');
        } else if c == '\n' {
            out.push('\\');
            out.push('n');
        } else if c == '\r' {
            out.push('\\');
            out.push('r');
        } else if c == '\t' {
            out.push('\\');
            out.push('t');
        } else if (c as u32) < 32 {
            let v = c as u32;
            let hi = (v / 16) as u8;
            let lo = (v % 16) as u8;
            out.push('\\');
            out.push('u');
            out.push('0');
            out.push('0');
            out.push((if hi < 10 {
                48 + hi
            } else {
                87 + hi
            }) as char);
            out.push((if lo < 10 {
                48 + lo
            } else {
                87 + lo
            }) as char);
        } else {
            out.push(c);
        }
        proof {
            assert(out@ =~= pre + esc_char(c));
            assert(cs@.take(i + 1int) =~= cs@.take(i as int).push(c));
            lemma_esc_snoc(cs@.take(i as int), c);
            assert(out@ =~= base + esc(cs@.take(i + 1int)));
        }
        i = i + 1;
    }
    proof {
        assert(cs@.take(cs@.len() as int) =~= cs@);
    }
}

/// Append a number's decimal digits, most significant first.
fn push_digits(out: &mut Vec<char>, n: usize)
    ensures
        final(out)@ == old(out)@ + dec_digits(n as int),
    decreases n,
{
    if n < 10 {
        let d = (48 + n as u8) as char;
        out.push(d);
        proof {
            assert(old(out)@.push(d) =~= old(out)@ + seq![digit_ch(n as int)]);
        }
    } else {
        push_digits(out, n / 10);
        let d = (48 + (n % 10) as u8) as char;
        out.push(d);
        proof {
            assert((old(out)@ + dec_digits(n as int / 10)).push(d) =~= old(out)@ + (dec_digits(
                n as int / 10,
            ) + seq![digit_ch(n as int % 10)]));
        }
    }
}

/// Append a rendered note.
#[verifier::rlimit(100)]
fn push_item(out: &mut Vec<char>, it: &Item)
    ensures
        final(out)@ == old(out)@ + doc_item(it@),
{
    let ghost base = out@;
    push_str_chars(out, "    {\n      \"id\": ");
    push_digits(out, it.id);
    push_str_chars(out, ",\n      \"title\": \"");
    push_escaped(out, it.title.as_str());
    out.push('"');
    push_str_chars(out, ",\n      \"status\": \"");
    match it.status {
        Status::Blank => {
            proof {
                assert(esc(status_tok(Status::Blank)) =~= Seq::<char>::empty());
            }
        },
        Status::Started => {
            push_escaped(out, "Started");
        },
        Status::Urgent => {
            push_escaped(out, "Urgent");
        },
    }
    out.push('"');
    push_str_chars(out, ",\n      \"body\": \"");
    push_escaped(out, it.body.as_str());
    out.push('"');
    push_str_chars(out, ",\n      \"last_touched\": \"");
    push_escaped(out, it.last_touched.as_str());
    out.push('"');
    push_str_chars(out, "\n    }");
    proof {
        assert(out@ =~= base + doc_item(it@));
    }
}

/// Append the rendered notes from `idx` on, separated by commas.
fn push_items(out: &mut Vec<char>, notes: &Vec<Item>, idx: usize)
    requires
        idx < notes@.len(),
    ensures
        final(out)@ == old(out)@ + doc_items(views_of(notes@).skip(idx as int)),
    decreases notes@.len() - idx,
{
    let len = notes.len();
    let ghost base = out@;
    let ghost rest = views_of(notes@).skip(idx as int);
    push_item(out, &notes[idx]);
    proof {
        assert(rest[0] == views_of(notes@)[idx as int]);
    }
    if idx + 1 < len {
        push_str_chars(out, ",\n");
        push_items(out, notes, idx + 1);
        proof {
            assert(views_of(notes@).skip(idx + 1int) =~= rest.drop_first());
            assert(doc_items(rest) == doc_item(rest[0]) + (lit_sep() + doc_items(
                rest.drop_first(),
            )));
            assert(out@ =~= base + doc_items(rest));
        }
    } else {
        proof {
            assert(rest.len() == 1);
            assert(out@ =~= base + doc_items(rest));
        }
    }
}

/// Render a profile to its canonical document.
pub fn serialize_profile(p: &Profile) -> (r: String)
    ensures
        r@ == doc_of(p@),
{
    let mut out: Vec<char> = Vec::new();
    push_str_chars(&mut out, "{\n  \"encrypted\": ");
    if p.encrypted {
        push_str_chars(&mut out, "true");
    } else {
        push_str_chars(&mut out, "false");
    }
    push_str_chars(&mut out, ",\n  \"notes\": ");
    if p.notes.len() == 0 {
        push_str_chars(&mut out, "[]");
        proof {
            assert(views_of(p.notes@).len() == 0);
        }
    } else {
        push_str_chars(&mut out, "[\n");
        push_items(&mut out, &p.notes, 0);
        push_str_chars(&mut out, "\n  ]");
        proof {
            assert(views_of(p.notes@).skip(0int) =~= views_of(p.notes@));
        }
    }
    push_str_chars(&mut out, "\n}");
    proof {
        assert(out@ =~= doc_of(p@));
    }
    chars_string(&out)
}

/// A number rendered as its decimal digits.
pub fn usize_string(n: usize) -> (r: String)
    ensures
        r@ == dec_digits(n as int),
{
    let mut out: Vec<char> = Vec::new();
    push_digits(&mut out, n);
    chars_string(&out)
}

/// Whether the character is a decimal digit.
fn exec_digit(c: char) -> (r: bool)
    ensures
        r == ch_digit(c),
{
    let v = c as u32;
    48 <= v && v <= 57
}

/// Whether the character is a lowercase hex digit.
fn exec_hex(c: char) -> (r: bool)
    ensures
        r == ch_hex(c),
{
    let v = c as u32;
    (48 <= v && v <= 57) || (97 <= v && v <= 102)
}

/// The hex digit's value.
fn exec_hval(c: char) -> (r: u32)
    requires
        ch_hex(c),
    ensures
        r == ch_hval(c),
        r < 16,
{
    let v = c as u32;
    if v <= 57 {
        v - 48
    } else {
        v - 87
    }
}

/// Expect this literal at position `i`.
fn p_lit(cs: &Vec<char>, i: usize, lit: &str) -> (r: Option<usize>)
    ensures
        r matches Some(j) ==> sp_lit(cs@, i as int, lit@) == Some(j as int),
        r is None ==> sp_lit(cs@, i as int, lit@) is None,
{
    let lc: Vec<char> = str_chars(lit);
    if i > cs.len() || cs.len() - i < lc.len() {
        return None;
    }
    let mut k: usize = 0;
    while k < lc.len()
        invariant
            k <= lc@.len(),
            lc@ == lit@,
            i + lc@.len() <= cs@.len(),
            cs@.len() <= usize::MAX,
            forall|q: int| 0 <= q < k ==> cs@[i + q] == lc@[q],
        decreases lc@.len() - k,
    {
        if cs[i + k] != lc[k] {
            proof {
                if cs@.subrange(i as int, i + lit@.len()) == lit@ {
                    assert(cs@.subrange(i as int, i + lit@.len())[k as int] == cs@[i + k]);
                }
            }
            return None;
        }
        k = k + 1;
    }
    proof {
        assert(cs@.subrange(i as int, i + lit@.len()) =~= lit@);
    }
    Some(i + lc.len())
}

/// A number at position `i`, within `usize`.
fn p_num(cs: &Vec<char>, i: usize) -> (r: Option<(usize, usize)>)
    requires
        i <= cs@.len(),
    ensures
        r matches Some(v) ==> sp_num(cs@, i as int) == Some((v.0 as int, v.1 as int)),
        r is None ==> sp_num(cs@, i as int) is None,
{
    if i >= cs.len() {
        return None;
    }
    if !exec_digit(cs[i]) {
        return None;
    }
    let mut j: usize = i;
    let mut acc: usize = 0;
    let mut over: bool = false;
    let ghost mut gacc: int = 0;
    while j < cs.len() && exec_digit(cs[j])
        invariant
            i <= j <= cs@.len(),
            sp_num_rest(cs@, i as int, 0) == sp_num_rest(cs@, j as int, gacc),
            !over ==> gacc == acc,
            over ==> gacc > usize::MAX,
            gacc >= 0,
        decreases cs@.len() - j,
    {
        let c = cs[j];
        let d: usize = (c as u32 - 48) as usize;
        proof {
            assert(d == ch_dval(c));
        }
        if !over {
            if acc <= (usize::MAX - d) / 10 {
                acc = acc * 10 + d;
            } else {
                over = true;
            }
        }
        proof {
            gacc = gacc * 10 + ch_dval(c);
        }
        j = j + 1;
    }
    if over {
        return None;
    }
    Some((acc, j))
}

/// The body of a JSON string from position `i`, through its closing quote.
fn p_strbody(cs: &Vec<char>, i: usize) -> (r: Option<(Vec<char>, usize)>)
    ensures
        r matches Some(v) ==> sp_strbody(cs@, i as int) == Some((v.0@, v.1 as int)),
        r is None ==> sp_strbody(cs@, i as int) is None,
    decreases cs@.len() - i,
{
    if i >= cs.len() {
        return None;
    }
    let c = cs[i];
    if c == '"' {
        return Some((Vec::new(), i + 1));
    }
    if c == '\\' {
        if cs.len() - i < 2 {
            return None;
        }
        let e = cs[i + 1];
        if e == '"' || e == '\\' || e == 'n' || e == 'r' || e == 't' {
            let decoded: char = if e == '"' {
                '"'
            } else if e == '\\' {
                '\\'
            } else if e == 'n' {
                '\n'
            } else if e == 'r' {
                '\r'
            } else {
                '\t'
            };
            match p_strbody(cs, i + 2) {
                Some((t, j)) => {
                    let mut t2 = t;
                    t2.insert(0, decoded);
                    proof {
                        assert(t2@ =~= seq![decoded] + t2@.drop_first());
                    }
                    Some((t2, j))
                },
                None => None,
            }
        } else if e == 'u' {
            if cs.len() - i >= 6 {
                let ok = cs[i + 2] == '0' && cs[i + 3] == '0' && exec_hex(cs[i + 4]) && exec_hex(
                    cs[i + 5],
                );
                if ok {
                    let v: u32 = exec_hval(cs[i + 4]) * 16 + exec_hval(cs[i + 5]);
                    let decoded: char = (v as u8) as char;
                    proof {
                        assert(decoded == char_of_code(
                            ch_hval(cs@[i + 4int]) * 16 + ch_hval(cs@[i + 5int]),
                        ));
                    }
                    match p_strbody(cs, i + 6) {
                        Some((t, j)) => {
                            let mut t2 = t;
                            t2.insert(0, decoded);
                            proof {
                                assert(t2@ =~= seq![decoded] + t2@.drop_first());
                            }
                            Some((t2, j))
                        },
                        None => None,
                    }
                } else {
                    None
                }
            } else {
                None
            }
        } else {
            None
        }
    } else {
        match p_strbody(cs, i + 1) {
            Some((t, j)) => {
                let mut t2 = t;
                t2.insert(0, c);
                proof {
                    assert(t2@ =~= seq![c] + t2@.drop_first());
                }
                Some((t2, j))
            },
            None => None,
        }
    }
}

/// A quoted string field: its opening literal, then the string's body.
fn p_field(cs: &Vec<char>, i: usize, lit: &str) -> (r: Option<(Vec<char>, usize)>)
    ensures
        r matches Some(v) ==> sp_field(cs@, i as int, lit@) == Some((v.0@, v.1 as int)),
        r is None ==> sp_field(cs@, i as int, lit@) is None,
{
    match p_lit(cs, i, lit) {
        Some(j) => p_strbody(cs, j),
        None => None,
    }
}

/// One note at position `i`.
fn p_item(cs: &Vec<char>, i: usize) -> (r: Option<(Item, usize)>)
    ensures
        r matches Some(v) ==> sp_item(cs@, i as int) == Some((v.0@, v.1 as int)),
        r is None ==> sp_item(cs@, i as int) is None,
{
    let i1 = match p_lit(cs, i, "    {\n      \"id\": ") {
        Some(j) => j,
        None => {
            return None;
        },
    };
    proof {
        assert(i1 <= cs@.len());
    }
    let (idv, i2) = match p_num(cs, i1) {
        Some(v) => v,
        None => {
            return None;
        },
    };
    let (title, i3) = match p_field(cs, i2, ",\n      \"title\": \"") {
        Some(v) => v,
        None => {
            return None;
        },
    };
    let (tok, i4) = match p_field(cs, i3, ",\n      \"status\": \"") {
        Some(v) => v,
        None => {
            return None;
        },
    };
    let started: Vec<char> = str_chars("Started");
    let urgent: Vec<char> = str_chars("Urgent");
    let status: Status = if tok.len() == 0 {
        Status::Blank
    } else if chars_eq(&tok, &started) {
        Status::Started
    } else if chars_eq(&tok, &urgent) {
        Status::Urgent
    } else {
        return None;
    };
    let (body, i5) = match p_field(cs, i4, ",\n      \"body\": \"") {
        Some(v) => v,
        None => {
            return None;
        },
    };
    let (lt, i6) = match p_field(cs, i5, ",\n      \"last_touched\": \"") {
        Some(v) => v,
        None => {
            return None;
        },
    };
    let i7 = match p_lit(cs, i6, "\n    }") {
        Some(j) => j,
        None => {
            return None;
        },
    };
    let it = Item {
        id: idv,
        title: chars_string(&title),
        status,
        body: chars_string(&body),
        last_touched: chars_string(&lt),
    };
    proof {
        assert(it@ =~= sp_item(cs@, i as int)->Some_0.0);
    }
    Some((it, i7))
}

/// One or more notes at position `i`, through the list's closing bracket.
fn p_items(cs: &Vec<char>, i: usize) -> (r: Option<(Vec<Item>, usize)>)
    requires
        i <= cs@.len(),
    ensures
        r matches Some(v) ==> sp_items(cs@, i as int) == Some((views_of(v.0@), v.1 as int)),
        r is None ==> sp_items(cs@, i as int) is None,
    decreases cs@.len() - i,
{
    let (it, j) = match p_item(cs, i) {
        Some(v) => v,
        None => {
            return None;
        },
    };
    if !(i < j && j <= cs.len()) {
        return None;
    }
    match p_lit(cs, j, ",\n") {
        Some(j2) => {
            if !(j < j2 && j2 <= cs.len()) {
                return None;
            }
            match p_items(cs, j2) {
                Some((rest, j3)) => {
                    let mut out = rest;
                    out.insert(0, it);
                    proof {
                        assert(views_of(out@) =~= seq![it@] + views_of(out@.drop_first()));
                    }
                    Some((out, j3))
                },
                None => None,
            }
        },
        None => {
            match p_lit(cs, j, "\n  ]") {
                Some(j3) => {
                    let mut out: Vec<Item> = Vec::new();
                    out.push(it);
                    proof {
                        assert(views_of(out@) =~= seq![it@]);
                    }
                    Some((out, j3))
                },
                None => None,
            }
        },
    }
}

/// Parse a canonical profile document.  Exactly the canonical renderings
/// parse; the result is the profile they render.
pub fn parse_profile(doc: &str) -> (r: Option<Profile>)
    ensures
        r matches Some(p) ==> sp_profile(doc@) == Some(p@),
        r is None ==> sp_profile(doc@) is None,
{
    let cs: Vec<char> = str_chars(doc);
    let i1 = match p_lit(&cs, 0, "{\n  \"encrypted\": ") {
        Some(j) => j,
        None => {
            return None;
        },
    };
    let (encrypted, i2) = match p_lit(&cs, i1, "true") {
        Some(j) => (true, j),
        None => {
            match p_lit(&cs, i1, "false") {
                Some(j) => (false, j),
                None => {
                    return None;
                },
            }
        },
    };
    let i3 = match p_lit(&cs, i2, ",\n  \"notes\": ") {
        Some(j) => j,
        None => {
            return None;
        },
    };
    let (notes, i4) = match p_lit(&cs, i3, "[]") {
        Some(j) => (Vec::new(), j),
        None => {
            match p_lit(&cs, i3, "[\n") {
                Some(j) => {
                    proof {
                        assert(j <= cs@.len());
                    }
                    match p_items(&cs, j) {
                        Some(v) => v,
                        None => {
                            return None;
                        },
                    }
                },
                None => {
                    return None;
                },
            }
        },
    };
    let i5 = match p_lit(&cs, i4, "\n}") {
        Some(j) => j,
        None => {
            return None;
        },
    };
    if i5 != cs.len() {
        return None;
    }
    let p = Profile { encrypted, notes };
    proof {
        assert(p@ =~= sp_profile(doc@)->Some_0);
    }
    Some(p)
}

} // verus!

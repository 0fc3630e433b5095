//! The scanner's general laws, each proved once and for all inputs: how
//! a full scan ends, how its byte spans relate, what the length guard of
//! the keyword table promises, and how a colon is disambiguated.

use vstd::prelude::*;
use vstd::utf8::encode_utf8;

use crate::classify::{is_digit, is_filler_start, is_letter, is_symbol_char, keyword_kind};
use crate::model::{
    byte_pos, digits_end, digits_val, eof_token, lemma_alnum_end_all, lemma_byte_pos_ascii,
    lemma_byte_pos_full, lemma_byte_pos_mono, lemma_byte_pos_step, lemma_byte_pos_zero,
    lemma_char_width_ascii, lemma_next_token, lemma_skip_filler_bounds, max_literal, next_token,
    scan, scan_from, skip_filler, symbol_run_end, token_step,
};
use crate::token::{Kind, TokenModel, ValueModel};

verus! {

/// The byte offset `b` is where some non-filler character begins: no
/// token starts inside whitespace or a comment.
pub open spec fn clean_start(s: Seq<char>, b: int) -> bool {
    exists|cp: nat| cp < s.len() && b == byte_pos(s, cp) && !is_filler_start(s[cp as int])
}

/// Only filler separates the two byte offsets: `b1` is where
/// filler-skipping from `b0`'s character position stops, so whitespace
/// and comment text lie wholly between spans, never inside one.
pub open spec fn filler_gap(s: Seq<char>, b0: int, b1: int) -> bool {
    exists|cp: nat|
        cp <= s.len() && b0 == byte_pos(s, cp) && b1 == byte_pos(s, skip_filler(s, cp))
}

/// Structure of every successful scan, from any character position: at
/// least one token comes back; the first starts at the byte offset where
/// filler-skipping stops; the last is the end-of-input token and no
/// earlier one is; byte spans are ordered and disjoint; each later token
/// starts exactly where filler-skipping from its predecessor's end
/// stops; and every token but the last begins on a non-filler character.
/// A failed scan names a non-empty byte span within the text.
pub proof fn lemma_scan_from_shape(s: Seq<char>, pos: nat)
    requires
        pos <= s.len(),
    ensures
        match scan_from(s, pos) {
            Ok(ts) => {
                &&& ts.len() >= 1
                &&& ts[0].start == byte_pos(s, skip_filler(s, pos))
                &&& ts.last() == eof_token(s)
                &&& forall|i: int| 0 <= i < ts.len() - 1 ==> ts[i].kind != Kind::Eof
                &&& forall|i: int|
                    0 <= i < ts.len() ==> byte_pos(s, pos) <= (#[trigger] ts[i]).start
                        <= ts[i].end <= byte_pos(s, s.len())
                &&& forall|i: int| 0 <= i < ts.len() - 1 ==> ts[i].end <= ts[i + 1].start
                &&& forall|i: int| 0 < i < ts.len() ==> filler_gap(s, ts[i - 1].end, ts[i].start)
                &&& forall|i: int| 0 <= i < ts.len() - 1 ==> clean_start(s, ts[i].start)
            },
            Err((a, b)) => byte_pos(s, pos) <= a < b <= byte_pos(s, s.len()),
        },
    decreases s.len() - pos,
{
    lemma_next_token(s, pos);
    lemma_skip_filler_bounds(s, pos);
    match next_token(s, pos) {
        Err(e) => {},
        Ok((t, q)) => {
            if t.kind != Kind::Eof {
                let sp = skip_filler(s, pos);
                lemma_scan_from_shape(s, q);
                lemma_skip_filler_bounds(s, q);
                lemma_byte_pos_mono(s, pos, q);
                lemma_byte_pos_mono(s, q, skip_filler(s, q));
                match scan_from(s, q) {
                    Err(e) => {},
                    Ok(rest) => {
                        let ts = seq![t] + rest;
                        assert(ts[0] == t);
                        assert(forall|i: int| 0 < i < ts.len() ==> ts[i] == rest[i - 1]);
                        assert(ts.last() == eof_token(s));
                        assert(sp < s.len() && t.start == byte_pos(s, sp) && !is_filler_start(
                            s[sp as int],
                        ));
                        assert(clean_start(s, ts[0].start));
                        assert(q <= s.len() && ts[0].end == byte_pos(s, q) && ts[1].start
                            == byte_pos(s, skip_filler(s, q)));
                        assert(filler_gap(s, ts[0].end, ts[1].start));
                    },
                }
            }
        },
    }
}

/// Every full scan terminates with exactly one end-of-input token: a
/// successful scan's last token is the end-of-input token, whose empty
/// span sits at the text's byte length, and no other token has that
/// kind.  (That a scan terminates at all needs no further statement:
/// the model is a total function, and the engine is verified to compute
/// it.)  A scan aborted by an out-of-range integer literal hands back
/// no tokens instead.
pub proof fn lemma_scan_ends_with_eof(s: Seq<char>)
    ensures
        scan(s) matches Ok(ts) ==> {
            &&& ts.len() >= 1
            &&& ts.last() == eof_token(s)
            &&& ts.last().kind == Kind::Eof
            &&& ts.last().start == encode_utf8(s).len()
            &&& ts.last().end == encode_utf8(s).len()
            &&& forall|i: int| 0 <= i < ts.len() - 1 ==> ts[i].kind != Kind::Eof
        },
{
    lemma_scan_from_shape(s, 0);
    lemma_byte_pos_full(s);
}

/// Byte spans of a full scan are ordered and disjoint, and filler never
/// lies inside one: each token ends no later than the next begins, the
/// first token starts only after the filler at the front, every later
/// token starts exactly where filler-skipping from its predecessor's
/// end stops, and every token but the last begins on a non-filler
/// character.
pub proof fn lemma_scan_spans_ordered(s: Seq<char>)
    ensures
        scan(s) matches Ok(ts) ==> {
            &&& forall|i: int|
                0 <= i < ts.len() ==> 0 <= (#[trigger] ts[i]).start <= ts[i].end <= encode_utf8(
                    s,
                ).len()
            &&& forall|i: int| 0 <= i < ts.len() - 1 ==> ts[i].end <= ts[i + 1].start
            &&& ts.len() >= 1 && ts[0].start == byte_pos(s, skip_filler(s, 0))
            &&& forall|i: int| 0 < i < ts.len() ==> filler_gap(s, ts[i - 1].end, ts[i].start)
            &&& forall|i: int| 0 <= i < ts.len() - 1 ==> clean_start(s, ts[i].start)
        },
{
    lemma_scan_from_shape(s, 0);
    lemma_byte_pos_zero(s);
    lemma_byte_pos_full(s);
}

/// The keyword table's length guard: text of one character, or of more
/// than ten, is always a plain identifier, never a keyword, whatever
/// its letters spell.
pub proof fn lemma_length_guard(text: Seq<char>)
    ensures
        text.len() == 1 || text.len() > 10 ==> keyword_kind(text) == Kind::Name,
{
}

/// Scanning text that is one unbroken word of letters yields exactly
/// that word as one token — a keyword token with no value when the
/// keyword table matches it, a plain identifier carrying the text
/// otherwise — followed by the end-of-input token.  Letters are ASCII,
/// so the word's byte span is `(0, s.len())`.
pub proof fn lemma_scan_single_word(s: Seq<char>)
    requires
        s.len() >= 1,
        forall|i: int| 0 <= i < s.len() ==> is_letter(s[i]),
    ensures
        ({
            let k = keyword_kind(s);
            let v = if k == Kind::Name {
                ValueModel::Text(s)
            } else {
                ValueModel::Absent
            };
            scan(s) == Ok::<Seq<TokenModel>, (nat, nat)>(
                seq![
                    (TokenModel { kind: k, start: 0, end: s.len() as int, value: v }),
                    eof_token(s),
                ],
            )
        }),
{
    assert(is_letter(s[0]));
    assert(!is_filler_start(s[0]));
    assert(skip_filler(s, 0) == 0);
    lemma_alnum_end_all(s, 0);
    assert(forall|i: int| 0 <= i < s.len() ==> (s[i] as u32) <= 0x7F);
    lemma_byte_pos_zero(s);
    lemma_byte_pos_ascii(s, s.len());
    assert(s.subrange(0, s.len() as int) =~= s);
    let k = keyword_kind(s);
    let v = if k == Kind::Name {
        ValueModel::Text(s)
    } else {
        ValueModel::Absent
    };
    let tok = TokenModel { kind: k, start: 0, end: s.len() as int, value: v };
    assert(token_step(s, 0) == Ok::<(TokenModel, nat), (nat, nat)>((tok, s.len())));
    assert(k != Kind::Eof);
    assert(skip_filler(s, s.len()) == s.len());
    assert(scan_from(s, s.len()) == Ok::<Seq<TokenModel>, (nat, nat)>(seq![eof_token(s)]));
    assert(scan_from(s, 0) == Ok::<Seq<TokenModel>, (nat, nat)>(seq![tok] + seq![eof_token(s)]));
    assert(seq![tok] + seq![eof_token(s)] =~= seq![tok, eof_token(s)]);
}

/// An unsigned integer literal beyond the 32-bit range aborts the scan:
/// when the digit run at the next token position denotes a value above
/// the largest 32-bit value, the scan from there yields no tokens at
/// all — neither for the literal nor for anything after it — only the
/// error naming the literal's byte span.
pub proof fn lemma_overflow_aborts(s: Seq<char>, pos: nat)
    requires
        pos <= s.len(),
        skip_filler(s, pos) < s.len(),
        is_digit(s[skip_filler(s, pos) as int]),
        digits_val(s, skip_filler(s, pos), digits_end(s, skip_filler(s, pos))) > max_literal(),
    ensures
        ({
            let p = skip_filler(s, pos);
            let err = (byte_pos(s, p), byte_pos(s, digits_end(s, p)));
            &&& next_token(s, pos) == Err::<(TokenModel, nat), (nat, nat)>(err)
            &&& scan_from(s, pos) == Err::<Seq<TokenModel>, (nat, nat)>(err)
        }),
{
    let p = skip_filler(s, pos);
    assert(!is_letter(s[p as int]));
}

/// The scan aborts only for a genuine out-of-range literal: every scan
/// error names the byte span of a maximal digit run whose base-ten
/// value exceeds the largest 32-bit value.  In particular an in-range
/// literal is never rejected, and no literal's value is ever wrapped or
/// truncated to fit.
pub proof fn lemma_scan_error_names_overflow(s: Seq<char>, pos: nat)
    requires
        pos <= s.len(),
    ensures
        scan_from(s, pos) matches Err((a, b)) ==> exists|cp: nat|
            {
                &&& cp < s.len()
                &&& is_digit(s[cp as int])
                &&& a == byte_pos(s, cp)
                &&& b == byte_pos(s, digits_end(s, cp))
                &&& digits_val(s, cp, digits_end(s, cp)) > max_literal()
            },
    decreases s.len() - pos,
{
    lemma_next_token(s, pos);
    match next_token(s, pos) {
        Err((a, b)) => {
            let p = skip_filler(s, pos);
            lemma_skip_filler_bounds(s, pos);
            assert(p < s.len() && is_digit(s[p as int]) && a == byte_pos(s, p) && b == byte_pos(
                s,
                digits_end(s, p),
            ) && digits_val(s, p, digits_end(s, p)) > max_literal());
        },
        Ok((t, q)) => {
            if t.kind != Kind::Eof {
                lemma_scan_error_names_overflow(s, q);
            }
        },
    }
}

/// A colon followed by nothing that could extend a symbol is one
/// `Colon` token of its own, one byte wide: the character after it, if
/// any, is left for the next token.  (A character that itself forms
/// part of some symbol is munched instead: `:=` becomes `Assign`, and
/// text such as `:;` becomes one `Unknown` token.)
pub proof fn lemma_colon_alone(s: Seq<char>, pos: nat)
    requires
        pos < s.len(),
        s[pos as int] == ':',
        pos + 1 == s.len() || !is_symbol_char(s[pos as int + 1]),
    ensures
        next_token(s, pos) == Ok::<(TokenModel, nat), (nat, nat)>(
            (
                (TokenModel {
                    kind: Kind::Colon,
                    start: byte_pos(s, pos) as int,
                    end: byte_pos(s, pos) as int + 1,
                    value: ValueModel::Absent,
                }),
                (pos + 1) as nat,
            ),
        ),
{
    assert(skip_filler(s, pos) == pos);
    assert(symbol_run_end(s, (pos + 1) as nat) == pos + 1);
    lemma_byte_pos_step(s, pos);
    lemma_char_width_ascii(s[pos as int]);
    let text = s.subrange(pos as int, pos as int + 1);
    assert(text.len() == 1 && text[0] == ':');
}

/// The two-character sequence `:=`, when nothing after it could extend
/// a symbol, is one `Assign` token, two bytes wide.
pub proof fn lemma_assign_pair(s: Seq<char>, pos: nat)
    requires
        pos + 1 < s.len(),
        s[pos as int] == ':',
        s[pos as int + 1] == '=',
        pos + 2 == s.len() || !is_symbol_char(s[pos as int + 2]),
    ensures
        next_token(s, pos) == Ok::<(TokenModel, nat), (nat, nat)>(
            (
                (TokenModel {
                    kind: Kind::Assign,
                    start: byte_pos(s, pos) as int,
                    end: byte_pos(s, pos) as int + 2,
                    value: ValueModel::Absent,
                }),
                (pos + 2) as nat,
            ),
        ),
{
    assert(skip_filler(s, pos) == pos);
    assert(symbol_run_end(s, (pos + 2) as nat) == pos + 2);
    assert(symbol_run_end(s, (pos + 1) as nat) == pos + 2);
    lemma_byte_pos_step(s, pos);
    lemma_char_width_ascii(s[pos as int]);
    lemma_byte_pos_step(s, (pos + 1) as nat);
    lemma_char_width_ascii(s[pos as int + 1]);
    let text = s.subrange(pos as int, pos as int + 2);
    assert(text.len() == 2 && text[0] == ':' && text[1] == '=');
}

} // verus!

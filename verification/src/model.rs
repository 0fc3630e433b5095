//! The mathematical model of the scan: recursive functions over the
//! source text, seen as a sequence of characters, that say where filler
//! ends, where each token ends, which kind it has and which value it
//! carries.  The executable scanner in `lexer` is proved to compute
//! exactly these functions.

use vstd::prelude::*;
use vstd::utf8::{encode_scalar, encode_utf8};

use crate::classify::{
    digit_val, is_alnum, is_digit, is_filler_start, is_letter, is_single_symbol, is_symbol_char,
    is_whitespace, keyword_kind, symbol_kind,
};
use crate::token::{Kind, TokenModel, ValueModel};

verus! {

/// The largest value an unsigned integer literal may denote.
pub open spec fn max_literal() -> int {
    0xFFFF_FFFF
}

/// Width, in bytes, of the character's UTF-8 encoding.
pub open spec fn char_width(c: char) -> nat {
    encode_scalar(c as u32).len()
}

/// Byte offset of the character at index `pos`: the length of the UTF-8
/// encoding of everything before it.  Token positions are stated in
/// these byte offsets, the only position information the scanner
/// exposes.
pub open spec fn byte_pos(s: Seq<char>, pos: nat) -> nat {
    encode_utf8(s.take(pos as int)).len()
}

/// A character's UTF-8 encoding takes between one and four bytes.
pub proof fn lemma_char_width_bounds(c: char)
    ensures
        1 <= char_width(c) <= 4,
{
}

/// An ASCII character's UTF-8 encoding is the one byte of its code.
pub proof fn lemma_char_width_ascii(c: char)
    requires
        c as u32 <= 0x7F,
    ensures
        char_width(c) == 1,
{
}

/// Encoding one more character appends that character's encoding.
proof fn lemma_encode_utf8_push(a: Seq<char>, c: char)
    ensures
        encode_utf8(a.push(c)) == encode_utf8(a) + encode_scalar(c as u32),
    decreases a.len(),
{
    if a.len() == 0 {
        assert(a.push(c)[0] == c);
        assert(a.push(c).drop_first() =~= Seq::<char>::empty());
        assert(encode_utf8(Seq::<char>::empty()) =~= Seq::<u8>::empty());
        assert(a =~= Seq::<char>::empty());
        assert(encode_utf8(a.push(c)) =~= encode_scalar(c as u32) + encode_utf8(
            a.push(c).drop_first(),
        ));
        assert(encode_utf8(a.push(c)) =~= encode_utf8(a) + encode_scalar(c as u32));
    } else {
        assert(a.push(c)[0] == a[0]);
        assert(a.push(c).drop_first() =~= a.drop_first().push(c));
        lemma_encode_utf8_push(a.drop_first(), c);
        assert(encode_scalar(a[0] as u32) + (encode_utf8(a.drop_first()) + encode_scalar(c as u32))
            =~= (encode_scalar(a[0] as u32) + encode_utf8(a.drop_first())) + encode_scalar(
            c as u32,
        ));
    }
}

/// The byte cursor starts at zero.
pub proof fn lemma_byte_pos_zero(s: Seq<char>)
    ensures
        byte_pos(s, 0) == 0,
{
    assert(s.take(0) =~= Seq::<char>::empty());
}

/// Consuming one character advances the byte cursor by that character's
/// UTF-8 width.
pub proof fn lemma_byte_pos_step(s: Seq<char>, pos: nat)
    requires
        pos < s.len(),
    ensures
        byte_pos(s, (pos + 1) as nat) == byte_pos(s, pos) + char_width(s[pos as int]),
{
    assert(s.take(pos as int + 1) =~= s.take(pos as int).push(s[pos as int]));
    lemma_encode_utf8_push(s.take(pos as int), s[pos as int]);
}

/// The byte cursor grows with the character cursor, strictly so.
pub proof fn lemma_byte_pos_mono(s: Seq<char>, p: nat, q: nat)
    requires
        p <= q <= s.len(),
    ensures
        byte_pos(s, p) <= byte_pos(s, q),
        p < q ==> byte_pos(s, p) < byte_pos(s, q),
    decreases q - p,
{
    if p < q {
        lemma_byte_pos_mono(s, p, (q - 1) as nat);
        lemma_byte_pos_step(s, (q - 1) as nat);
        lemma_char_width_bounds(s[q - 1]);
    }
}

/// At the end of the text the byte cursor is the full encoding's length.
pub proof fn lemma_byte_pos_full(s: Seq<char>)
    ensures
        byte_pos(s, s.len()) == encode_utf8(s).len(),
{
    assert(s.take(s.len() as int) =~= s);
}

/// Over a prefix of ASCII characters, byte offsets and character
/// indices coincide.
pub proof fn lemma_byte_pos_ascii(s: Seq<char>, pos: nat)
    requires
        pos <= s.len(),
        forall|i: int| 0 <= i < pos ==> (s[i] as u32) <= 0x7F,
    ensures
        byte_pos(s, pos) == pos,
    decreases pos,
{
    if pos > 0 {
        lemma_byte_pos_ascii(s, (pos - 1) as nat);
        lemma_byte_pos_step(s, (pos - 1) as nat);
        lemma_char_width_ascii(s[pos - 1]);
    } else {
        lemma_byte_pos_zero(s);
    }
}

/// Position just past the closing `}` of a brace comment whose body
/// starts at `pos`, or the end of the text when no `}` follows: an
/// unterminated comment silently absorbs the remainder of the input.
pub open spec fn brace_close(s: Seq<char>, pos: nat) -> nat
    decreases s.len() - pos,
{
    if pos >= s.len() {
        pos
    } else if s[pos as int] == '}' {
        (pos + 1) as nat
    } else {
        brace_close(s, (pos + 1) as nat)
    }
}

/// Position just past the `*/` that closes a slash-style comment whose
/// body starts at `pos`, or the end of the text.  `star` records whether
/// the character just before `pos` was a `*`; the comment closes at the
/// first `/` seen in that state.
pub open spec fn slash_close(s: Seq<char>, pos: nat, star: bool) -> nat
    decreases s.len() - pos,
{
    if pos >= s.len() {
        pos
    } else if star && s[pos as int] == '/' {
        (pos + 1) as nat
    } else {
        slash_close(s, (pos + 1) as nat, s[pos as int] == '*')
    }
}

/// Position of the next token start at or after `pos`: whitespace is
/// discarded a character at a time, `{` opens a brace comment and `/`
/// opens a slash-style comment (every `/` does, whether or not a `*`
/// follows).  The result is the end of the text when only filler remains.
pub open spec fn skip_filler(s: Seq<char>, pos: nat) -> nat
    decreases s.len() - pos,
    via skip_filler_dec
{
    if pos >= s.len() {
        pos
    } else {
        let c = s[pos as int];
        if is_whitespace(c) {
            skip_filler(s, (pos + 1) as nat)
        } else if c == '{' {
            skip_filler(s, brace_close(s, (pos + 1) as nat))
        } else if c == '/' {
            skip_filler(s, slash_close(s, (pos + 1) as nat, false))
        } else {
            pos
        }
    }
}

/// Bounds of `brace_close`: it moves forward and never past the end.
pub proof fn lemma_brace_close_bounds(s: Seq<char>, pos: nat)
    requires
        pos <= s.len(),
    ensures
        pos <= brace_close(s, pos) <= s.len(),
    decreases s.len() - pos,
{
    if pos < s.len() && s[pos as int] != '}' {
        lemma_brace_close_bounds(s, (pos + 1) as nat);
    }
}

/// Bounds of `slash_close`: it moves forward and never past the end.
pub proof fn lemma_slash_close_bounds(s: Seq<char>, pos: nat, star: bool)
    requires
        pos <= s.len(),
    ensures
        pos <= slash_close(s, pos, star) <= s.len(),
    decreases s.len() - pos,
{
    if pos < s.len() && !(star && s[pos as int] == '/') {
        lemma_slash_close_bounds(s, (pos + 1) as nat, s[pos as int] == '*');
    }
}

#[via_fn]
proof fn skip_filler_dec(s: Seq<char>, pos: nat) {
    if pos < s.len() {
        lemma_brace_close_bounds(s, (pos + 1) as nat);
        lemma_slash_close_bounds(s, (pos + 1) as nat, false);
    }
}

/// `skip_filler` moves forward, never past the end, and stops either at
/// the end of the text or on a character that starts a token.
pub proof fn lemma_skip_filler_bounds(s: Seq<char>, pos: nat)
    requires
        pos <= s.len(),
    ensures
        pos <= skip_filler(s, pos) <= s.len(),
        skip_filler(s, pos) < s.len() ==> !is_filler_start(s[skip_filler(s, pos) as int]),
    decreases s.len() - pos,
{
    if pos < s.len() {
        let c = s[pos as int];
        if is_whitespace(c) {
            lemma_skip_filler_bounds(s, (pos + 1) as nat);
        } else if c == '{' {
            lemma_brace_close_bounds(s, (pos + 1) as nat);
            lemma_skip_filler_bounds(s, brace_close(s, (pos + 1) as nat));
        } else if c == '/' {
            lemma_slash_close_bounds(s, (pos + 1) as nat, false);
            lemma_skip_filler_bounds(s, slash_close(s, (pos + 1) as nat, false));
        }
    }
}

/// End of the maximal run of letters and digits starting at `pos`.
pub open spec fn alnum_end(s: Seq<char>, pos: nat) -> nat
    decreases s.len() - pos,
{
    if pos < s.len() && is_alnum(s[pos as int]) {
        alnum_end(s, (pos + 1) as nat)
    } else {
        pos
    }
}

/// End of the maximal run of digits starting at `pos`.
pub open spec fn digits_end(s: Seq<char>, pos: nat) -> nat
    decreases s.len() - pos,
{
    if pos < s.len() && is_digit(s[pos as int]) {
        digits_end(s, (pos + 1) as nat)
    } else {
        pos
    }
}

/// End of the maximal run of symbol-forming characters starting at `pos`.
pub open spec fn symbol_run_end(s: Seq<char>, pos: nat) -> nat
    decreases s.len() - pos,
{
    if pos < s.len() && is_symbol_char(s[pos as int]) {
        symbol_run_end(s, (pos + 1) as nat)
    } else {
        pos
    }
}

/// Bounds of `alnum_end`: the run reaches at least `pos` and never past
/// the end of the text.
pub proof fn lemma_alnum_end_bounds(s: Seq<char>, pos: nat)
    requires
        pos <= s.len(),
    ensures
        pos <= alnum_end(s, pos) <= s.len(),
    decreases s.len() - pos,
{
    if pos < s.len() && is_alnum(s[pos as int]) {
        lemma_alnum_end_bounds(s, (pos + 1) as nat);
    }
}

/// Bounds of `digits_end`.
pub proof fn lemma_digits_end_bounds(s: Seq<char>, pos: nat)
    requires
        pos <= s.len(),
    ensures
        pos <= digits_end(s, pos) <= s.len(),
    decreases s.len() - pos,
{
    if pos < s.len() && is_digit(s[pos as int]) {
        lemma_digits_end_bounds(s, (pos + 1) as nat);
    }
}

/// Bounds of `symbol_run_end`.
pub proof fn lemma_symbol_run_end_bounds(s: Seq<char>, pos: nat)
    requires
        pos <= s.len(),
    ensures
        pos <= symbol_run_end(s, pos) <= s.len(),
    decreases s.len() - pos,
{
    if pos < s.len() && is_symbol_char(s[pos as int]) {
        lemma_symbol_run_end_bounds(s, (pos + 1) as nat);
    }
}

/// Value of the digit run `s[start..end)` read in base ten.
pub open spec fn digits_val(s: Seq<char>, start: nat, end: nat) -> int
    decreases end - start,
{
    if end <= start {
        0
    } else {
        digits_val(s, start, (end - 1) as nat) * 10 + digit_val(s[end - 1])
    }
}

/// When every character from `pos` on is a letter or digit, the run
/// reaches the end of the text.
pub proof fn lemma_alnum_end_all(s: Seq<char>, pos: nat)
    requires
        pos <= s.len(),
        forall|i: int| pos <= i < s.len() ==> is_alnum(s[i]),
    ensures
        alnum_end(s, pos) == s.len(),
    decreases s.len() - pos,
{
    if pos < s.len() {
        lemma_alnum_end_all(s, (pos + 1) as nat);
    }
}

/// Every character of the run `[pos, digits_end(s, pos))` is a digit.
pub proof fn lemma_digits_end_chars(s: Seq<char>, pos: nat)
    requires
        pos <= s.len(),
    ensures
        forall|i: int| pos <= i < digits_end(s, pos) ==> is_digit(s[i]),
    decreases s.len() - pos,
{
    if pos < s.len() && is_digit(s[pos as int]) {
        lemma_digits_end_chars(s, (pos + 1) as nat);
    }
}

/// A digit run's value never shrinks as the run is extended.
pub proof fn lemma_digits_val_grows(s: Seq<char>, start: nat, end: nat)
    requires
        start <= end,
        forall|i: int| start <= i < end ==> is_digit(s[i]),
    ensures
        digits_val(s, start, end) >= 0,
        forall|m: nat| start <= m <= end ==> digits_val(s, start, m) <= digits_val(s, start, end),
    decreases end - start,
{
    if end > start {
        lemma_digits_val_grows(s, start, (end - 1) as nat);
        assert(digit_val(s[end - 1]) >= 0);
        assert(digits_val(s, start, end) >= digits_val(s, start, (end - 1) as nat));
    }
}

/// End and collapsed value of a string literal whose opening quote sits
/// just before `pos`.  `in_quote` says whether the character just before
/// `pos` was a quote that may close the literal; `buf` is the text
/// gathered so far, the tentatively pushed quote included.  Two adjacent
/// quotes collapse to one literal quote; any other character after a
/// closing quote ends the literal, as does the end of the input, and a
/// quote still pending at that point is stripped from the value.
pub open spec fn string_scan(s: Seq<char>, pos: nat, in_quote: bool, buf: Seq<char>) -> (nat, Seq<
    char,
>)
    decreases s.len() - pos,
{
    if pos >= s.len() {
        (pos, strip_quote(buf))
    } else {
        let c = s[pos as int];
        if in_quote {
            if c == '\'' {
                string_scan(s, (pos + 1) as nat, false, buf)
            } else {
                (pos, strip_quote(buf))
            }
        } else {
            if c == '\'' {
                string_scan(s, (pos + 1) as nat, true, buf.push(c))
            } else {
                string_scan(s, (pos + 1) as nat, false, buf.push(c))
            }
        }
    }
}

/// Removes a trailing quote, if one is present.
pub open spec fn strip_quote(buf: Seq<char>) -> Seq<char> {
    if buf.len() > 0 && buf.last() == '\'' {
        buf.drop_last()
    } else {
        buf
    }
}

/// Bounds of `string_scan`: the literal ends at or after `pos` and never
/// past the end of the text.
pub proof fn lemma_string_scan_bounds(s: Seq<char>, pos: nat, in_quote: bool, buf: Seq<char>)
    requires
        pos <= s.len(),
    ensures
        pos <= string_scan(s, pos, in_quote, buf).0 <= s.len(),
    decreases s.len() - pos,
{
    if pos < s.len() {
        let c = s[pos as int];
        if in_quote {
            if c == '\'' {
                lemma_string_scan_bounds(s, (pos + 1) as nat, false, buf);
            }
        } else if c == '\'' {
            lemma_string_scan_bounds(s, (pos + 1) as nat, true, buf.push(c));
        } else {
            lemma_string_scan_bounds(s, (pos + 1) as nat, false, buf.push(c));
        }
    }
}

/// End of the symbol whose first character sits at `pos`: a symbol that
/// is complete after one character stops there; anything else extends,
/// one character at a time, as long as the next character forms part of
/// some known symbol (maximal munch).
pub open spec fn symbol_end(s: Seq<char>, pos: nat) -> nat
    recommends
        pos < s.len(),
{
    if is_single_symbol(s[pos as int]) {
        (pos + 1) as nat
    } else {
        symbol_run_end(s, (pos + 1) as nat)
    }
}

/// One token read at `pos`, which must sit on a non-filler character:
/// the token's model together with the character cursor after it, or
/// the byte span of an unsigned integer literal whose value exceeds the
/// 32-bit range.  The token's `start` and `end` are byte offsets; the
/// first character selects the sub-scanner: letter, digit, quote, or
/// symbol.
pub open spec fn token_step(s: Seq<char>, pos: nat) -> Result<(TokenModel, nat), (nat, nat)>
    recommends
        pos < s.len(),
{
    let c = s[pos as int];
    if is_letter(c) {
        let e = alnum_end(s, pos);
        let text = s.subrange(pos as int, e as int);
        let k = keyword_kind(text);
        let v = if k == Kind::Name {
            ValueModel::Text(text)
        } else {
            ValueModel::Absent
        };
        Ok(
            (
                TokenModel {
                    kind: k,
                    start: byte_pos(s, pos) as int,
                    end: byte_pos(s, e) as int,
                    value: v,
                },
                e,
            ),
        )
    } else if is_digit(c) {
        let e = digits_end(s, pos);
        let n = digits_val(s, pos, e);
        if n > max_literal() {
            Err((byte_pos(s, pos), byte_pos(s, e)))
        } else {
            Ok(
                (
                    TokenModel {
                        kind: Kind::UnsignedInteger,
                        start: byte_pos(s, pos) as int,
                        end: byte_pos(s, e) as int,
                        value: ValueModel::Int(n as u32),
                    },
                    e,
                ),
            )
        }
    } else if c == '\'' {
        let r = string_scan(s, (pos + 1) as nat, false, Seq::empty());
        Ok(
            (
                TokenModel {
                    kind: Kind::String,
                    start: byte_pos(s, pos) as int,
                    end: byte_pos(s, r.0) as int,
                    value: ValueModel::Text(r.1),
                },
                r.0,
            ),
        )
    } else {
        let e = symbol_end(s, pos);
        let text = s.subrange(pos as int, e as int);
        let k = symbol_kind(text);
        let v = if k == Kind::Unknown {
            ValueModel::Text(text)
        } else {
            ValueModel::Absent
        };
        Ok(
            (
                TokenModel {
                    kind: k,
                    start: byte_pos(s, pos) as int,
                    end: byte_pos(s, e) as int,
                    value: v,
                },
                e,
            ),
        )
    }
}

/// The end-of-input token: an empty span at the text's byte length.
pub open spec fn eof_token(s: Seq<char>) -> TokenModel {
    TokenModel {
        kind: Kind::Eof,
        start: byte_pos(s, s.len()) as int,
        end: byte_pos(s, s.len()) as int,
        value: ValueModel::Absent,
    }
}

/// The next token from cursor position `pos`: filler is skipped first;
/// the end-of-input token is produced, forever, once only filler remains.
pub open spec fn next_token(s: Seq<char>, pos: nat) -> Result<(TokenModel, nat), (nat, nat)> {
    let p = skip_filler(s, pos);
    if p >= s.len() {
        Ok((eof_token(s), s.len()))
    } else {
        token_step(s, p)
    }
}

/// Shape of every result of `next_token`: the character cursor moves
/// forward, never past the end; the token's byte span is the image of
/// the character span from where filler-skipping stops to the new
/// cursor; only the end-of-input token is empty, and it alone starts at
/// the text's end.
pub proof fn lemma_next_token(s: Seq<char>, pos: nat)
    requires
        pos <= s.len(),
    ensures
        match next_token(s, pos) {
            Ok((t, q)) => {
                &&& pos <= q <= s.len()
                &&& skip_filler(s, pos) <= q
                &&& t.start == byte_pos(s, skip_filler(s, pos))
                &&& t.end == byte_pos(s, q)
                &&& byte_pos(s, pos) <= t.start <= t.end <= byte_pos(s, s.len())
                &&& (t.kind == Kind::Eof <==> skip_filler(s, pos) == s.len())
                &&& (t.kind == Kind::Eof ==> t == eof_token(s) && q == s.len())
                &&& (t.kind != Kind::Eof ==> skip_filler(s, pos) < q && t.start < t.end)
            },
            Err((a, b)) => {
                &&& byte_pos(s, pos) <= a < b <= byte_pos(s, s.len())
                &&& a == byte_pos(s, skip_filler(s, pos))
            },
        },
{
    lemma_skip_filler_bounds(s, pos);
    let p = skip_filler(s, pos);
    if p < s.len() {
        let c = s[p as int];
        if is_letter(c) {
            lemma_alnum_end_bounds(s, (p + 1) as nat);
            assert(alnum_end(s, p) == alnum_end(s, (p + 1) as nat));
            lemma_byte_pos_mono(s, pos, p);
            lemma_byte_pos_mono(s, p, alnum_end(s, p));
            lemma_byte_pos_mono(s, alnum_end(s, p), s.len());
        } else if is_digit(c) {
            lemma_digits_end_bounds(s, (p + 1) as nat);
            assert(digits_end(s, p) == digits_end(s, (p + 1) as nat));
            lemma_byte_pos_mono(s, pos, p);
            lemma_byte_pos_mono(s, p, digits_end(s, p));
            lemma_byte_pos_mono(s, digits_end(s, p), s.len());
        } else if c == '\'' {
            lemma_string_scan_bounds(s, (p + 1) as nat, false, Seq::empty());
            let e = string_scan(s, (p + 1) as nat, false, Seq::empty()).0;
            lemma_byte_pos_mono(s, pos, p);
            lemma_byte_pos_mono(s, p, e);
            lemma_byte_pos_mono(s, e, s.len());
        } else {
            if !is_single_symbol(c) {
                lemma_symbol_run_end_bounds(s, (p + 1) as nat);
            }
            lemma_byte_pos_mono(s, pos, p);
            lemma_byte_pos_mono(s, p, symbol_end(s, p));
            lemma_byte_pos_mono(s, symbol_end(s, p), s.len());
        }
    } else {
        lemma_byte_pos_mono(s, pos, s.len());
    }
}

/// The complete token sequence from cursor position `pos`: tokens in
/// order, ended by the end-of-input token, unless an out-of-range
/// integer literal aborts the scan.
pub open spec fn scan_from(s: Seq<char>, pos: nat) -> Result<Seq<TokenModel>, (nat, nat)>
    decreases s.len() - pos,
    via scan_from_dec
{
    match next_token(s, pos) {
        Err(e) => Err(e),
        Ok((t, q)) => {
            if t.kind == Kind::Eof {
                Ok(seq![t])
            } else {
                match scan_from(s, q) {
                    Err(e) => Err(e),
                    Ok(rest) => Ok(seq![t] + rest),
                }
            }
        },
    }
}

#[via_fn]
proof fn scan_from_dec(s: Seq<char>, pos: nat) {
    if pos <= s.len() {
        lemma_next_token(s, pos);
    } else {
        assert(skip_filler(s, pos) == pos);
    }
}

/// The complete token sequence of a full scan of `s`.
pub open spec fn scan(s: Seq<char>) -> Result<Seq<TokenModel>, (nat, nat)> {
    scan_from(s, 0)
}

} // verus!

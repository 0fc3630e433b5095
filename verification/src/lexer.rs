//! The scanning engine: a forward-only cursor over borrowed source text,
//! a pre-pass that discards whitespace and comments, and four sub-scanners
//! selected by the first character of each token.  Every operation is
//! proved to compute the model functions of `model`.

use vstd::prelude::*;
use vstd::string::{StrSliceExecFns, StringExecFns, StringSliceAdditionalSpecFns};
use vstd::utf8::encode_utf8;

use crate::classify::{
    alnum_char, digit_char, digit_val, digit_value, is_digit, is_letter, keyword_kind, letter_char,
    match_keyword, match_symbol, single_symbol_char, symbol_char, symbol_kind, whitespace_char,
};
use crate::model::{
    alnum_end, brace_close, byte_pos, char_width, digits_end, digits_val,
    lemma_brace_close_bounds, lemma_byte_pos_full, lemma_byte_pos_mono, lemma_byte_pos_step,
    lemma_byte_pos_zero, lemma_char_width_ascii, lemma_char_width_bounds, lemma_digits_end_chars,
    lemma_digits_val_grows, lemma_next_token, lemma_slash_close_bounds, max_literal, next_token,
    scan_from, skip_filler, slash_close, string_scan, strip_quote, symbol_end, symbol_run_end,
    token_step,
};
use crate::token::{
    lemma_tokens_model_push, tokens_model, Kind, ScanError, Token, TokenValue, ValueModel,
};

verus! {

/// Relies on `String::push`: appends the given character to the end of
/// the string.
pub assume_specification[ std::string::String::push ](s: &mut String, ch: char)
    ensures
        final(s)@ == old(s)@.push(ch),
;

/// Relies on `String::pop`: removes the last character from the string
/// and returns it, or returns nothing when the string is empty.
pub assume_specification[ std::string::String::pop ](s: &mut String) -> (r: Option<char>)
    ensures
        old(s)@.len() == 0 ==> r is None && final(s)@ == old(s)@,
        old(s)@.len() > 0 ==> r == Some(old(s)@.last()) && final(s)@ == old(s)@.drop_last(),
;

/// Relies on `char::len_utf8`: the number of bytes this character's
/// UTF-8 encoding occupies, between one and four.
pub assume_specification[ char::len_utf8 ](c: char) -> (r: usize)
    ensures
        r == char_width(c),
;

/// The scanning engine: borrowed source text and a forward-only cursor,
/// kept both as a character index (`pos`, what the scan loops walk) and
/// as the byte offset of that character (`bpos`, what tokens report).
/// `len` and `blen` cache the text's character and byte lengths so that
/// each step costs no re-count.
pub struct Lexer<'a> {
    source: &'a str,
    pos: usize,
    bpos: usize,
    len: usize,
    blen: usize,
}

impl<'a> Lexer<'a> {
    /// The source text under the scanner, as a character sequence.
    pub closed spec fn text(&self) -> Seq<char> {
        self.source@
    }

    /// The cursor: how many characters have been consumed.
    pub closed spec fn cursor(&self) -> nat {
        self.pos as nat
    }

    /// The cursor as a byte offset into the UTF-8 source text.
    pub closed spec fn byte_cursor(&self) -> nat {
        self.bpos as nat
    }

    /// The engine's invariant: the cursor never passes the end of the
    /// text, the byte cursor is the cursor's byte offset, and the cached
    /// lengths are the text's character and byte lengths.
    pub closed spec fn wf(&self) -> bool {
        &&& self.pos <= self.len
        &&& self.len == self.source@.len()
        &&& self.bpos == byte_pos(self.source@, self.pos as nat)
        &&& self.blen == byte_pos(self.source@, self.source@.len())
    }

    /// Constructs an engine over `source` with the cursor at the start.
    /// No validation is performed: any text can be scanned.
    pub fn new(source: &'a str) -> (l: Lexer<'a>)
        ensures
            l.wf(),
            l.text() == source@,
            l.cursor() == 0,
            l.byte_cursor() == 0,
    {
        let len = source.unicode_len();
        let blen = source.as_bytes().len();
        proof {
            lemma_byte_pos_zero(source@);
            lemma_byte_pos_full(source@);
            assert(source.spec_bytes() == encode_utf8(source@));
        }
        Lexer { source, pos: 0, bpos: 0, len, blen }
    }

    /// Consumes the character `c` at the cursor: the character cursor
    /// advances by one, the byte cursor by the character's UTF-8 width.
    fn advance(&mut self, c: char)
        requires
            old(self).wf(),
            old(self).cursor() < old(self).text().len(),
            old(self).text()[old(self).cursor() as int] == c,
        ensures
            final(self).wf(),
            final(self).text() == old(self).text(),
            final(self).cursor() == old(self).cursor() + 1,
    {
        proof {
            lemma_byte_pos_step(self.text(), self.cursor());
            lemma_char_width_bounds(c);
            lemma_byte_pos_mono(self.text(), (self.cursor() + 1) as nat, self.text().len());
        }
        self.pos = self.pos + 1;
        self.bpos = self.bpos + c.len_utf8();
    }

    /// Discards a brace comment: everything up to and including the next
    /// `}`, or the remainder of the input when no `}` follows.
    fn comment_brace(&mut self)
        requires
            old(self).wf(),
        ensures
            final(self).wf(),
            final(self).text() == old(self).text(),
            final(self).cursor() == brace_close(old(self).text(), old(self).cursor()),
    {
        loop
            invariant
                self.wf(),
                self.text() == old(self).text(),
                brace_close(self.text(), self.cursor()) == brace_close(
                    old(self).text(),
                    old(self).cursor(),
                ),
            decreases self.text().len() - self.cursor(),
        {
            if self.pos >= self.len {
                return ;
            }
            let c = self.source.get_char(self.pos);
            self.advance(c);
            if c == '}' {
                return ;
            }
        }
    }

    /// Discards a slash-style comment: everything up to and including the
    /// first `*/`, or the remainder of the input when none follows.  The
    /// hunt needs only whether the previous character was a `*`: the
    /// states before and after a failed match close behave alike.
    fn comment_slashstar(&mut self)
        requires
            old(self).wf(),
        ensures
            final(self).wf(),
            final(self).text() == old(self).text(),
            final(self).cursor() == slash_close(old(self).text(), old(self).cursor(), false),
    {
        let mut star = false;
        loop
            invariant
                self.wf(),
                self.text() == old(self).text(),
                slash_close(self.text(), self.cursor(), star) == slash_close(
                    old(self).text(),
                    old(self).cursor(),
                    false,
                ),
            decreases self.text().len() - self.cursor(),
        {
            if self.pos >= self.len {
                return ;
            }
            let c = self.source.get_char(self.pos);
            self.advance(c);
            if star && c == '/' {
                return ;
            }
            star = c == '*';
        }
    }

    /// Dispatches on a just-consumed separator character: `{` opens a
    /// brace comment, `/` a slash-style comment, and whitespace needs
    /// nothing more.
    fn comment(&mut self, c: char)
        requires
            old(self).wf(),
        ensures
            final(self).wf(),
            final(self).text() == old(self).text(),
            final(self).cursor() == (if c == '{' {
                brace_close(old(self).text(), old(self).cursor())
            } else if c == '/' {
                slash_close(old(self).text(), old(self).cursor(), false)
            } else {
                old(self).cursor()
            }),
    {
        if c == '{' {
            self.comment_brace();
        } else if c == '/' {
            self.comment_slashstar();
        }
    }

    /// Scans an identifier or keyword whose first character `c` was just
    /// consumed: the maximal run of letters and digits is taken, then
    /// its text is classified against the keyword table.  Keywords carry
    /// no value; identifiers carry their text.
    fn name_keyword(&mut self, c: char) -> (r: (Kind, TokenValue))
        requires
            old(self).wf(),
            old(self).cursor() >= 1,
            old(self).text()[old(self).cursor() - 1] == c,
            is_letter(c),
        ensures
            final(self).wf(),
            final(self).text() == old(self).text(),
            ({
                let s = old(self).text();
                let p = (old(self).cursor() - 1) as nat;
                let e = alnum_end(s, p);
                let text = s.subrange(p as int, e as int);
                &&& final(self).cursor() == e
                &&& r.0 == keyword_kind(text)
                &&& r.1@ == (if r.0 == Kind::Name {
                    ValueModel::Text(text)
                } else {
                    ValueModel::Absent
                })
            }),
    {
        let ghost s = self.text();
        let ghost p = (self.cursor() - 1) as nat;
        let mut buf = String::new();
        buf.push(c);
        proof {
            assert(buf@ =~= s.subrange(p as int, self.cursor() as int));
            assert(alnum_end(s, p) == alnum_end(s, (p + 1) as nat));
        }
        loop
            invariant_except_break
                self.wf(),
                s == old(self).text(),
                p == old(self).cursor() - 1,
                self.text() == s,
                p + 1 <= self.cursor() <= s.len(),
                buf@ == s.subrange(p as int, self.cursor() as int),
                alnum_end(s, self.cursor()) == alnum_end(s, p),
            ensures
                self.wf(),
                self.text() == s,
                self.cursor() == alnum_end(s, p),
                buf@ == s.subrange(p as int, self.cursor() as int),
            decreases s.len() - self.cursor(),
        {
            if self.pos >= self.len {
                break ;
            }
            let c2 = self.source.get_char(self.pos);
            if !alnum_char(c2) {
                break ;
            }
            buf.push(c2);
            self.advance(c2);
            proof {
                assert(buf@ =~= s.subrange(p as int, self.cursor() as int));
            }
        }
        let kind = match_keyword(&buf);
        if kind == Kind::Name {
            (kind, TokenValue::String(buf))
        } else {
            (kind, TokenValue::Absent)
        }
    }

    /// Scans an unsigned integer literal whose first digit `c` was just
    /// consumed: the maximal run of digits is taken and read in base
    /// ten.  A value beyond the 32-bit range is the one unrecoverable
    /// condition: the error names the literal's span and no token is
    /// produced for it.
    fn unsigned_integer(&mut self, c: char) -> (r: Result<(Kind, TokenValue), ScanError>)
        requires
            old(self).wf(),
            old(self).cursor() >= 1,
            old(self).text()[old(self).cursor() - 1] == c,
            is_digit(c),
        ensures
            final(self).wf(),
            final(self).text() == old(self).text(),
            ({
                let s = old(self).text();
                let p = (old(self).cursor() - 1) as nat;
                let e = digits_end(s, p);
                let n = digits_val(s, p, e);
                &&& final(self).cursor() == e
                &&& (n > max_literal() ==> (r matches Err(err) && err == (ScanError::IntegerOverflow {
                    start: byte_pos(s, p) as usize,
                    end: byte_pos(s, e) as usize,
                })))
                &&& (n <= max_literal() ==> (r matches Ok(kv) && kv.0 == Kind::UnsignedInteger
                    && kv.1@ == ValueModel::Int(n as u32)))
            }),
    {
        let ghost s = self.text();
        let ghost p = (self.cursor() - 1) as nat;
        let first = self.pos - 1;
        let start_b = self.bpos - 1;
        proof {
            assert(digits_end(s, p) == digits_end(s, (p + 1) as nat));
            lemma_byte_pos_step(s, p);
            lemma_char_width_ascii(c);
        }
        loop
            invariant_except_break
                self.wf(),
                s == old(self).text(),
                p == old(self).cursor() - 1,
                self.text() == s,
                p + 1 <= self.cursor() <= s.len(),
                digits_end(s, self.cursor()) == digits_end(s, p),
            ensures
                self.wf(),
                self.text() == s,
                p + 1 <= self.cursor(),
                self.cursor() == digits_end(s, p),
            decreases s.len() - self.cursor(),
        {
            if self.pos >= self.len {
                break ;
            }
            let c2 = self.source.get_char(self.pos);
            if !digit_char(c2) {
                break ;
            }
            self.advance(c2);
        }
        let end = self.pos;
        let end_b = self.bpos;
        let ghost e = digits_end(s, p);
        proof {
            lemma_digits_end_chars(s, p);
            lemma_digits_val_grows(s, p, e);
        }
        let mut val: u32 = digit_value(c);
        let mut i = first + 1;
        proof {
            assert(digits_val(s, p, p) == 0);
            assert(digits_val(s, p, (p + 1) as nat) == digit_val(c));
        }
        loop
            invariant_except_break
                self.wf(),
                s == old(self).text(),
                p == old(self).cursor() - 1,
                self.text() == s,
                self.cursor() == e,
                e == digits_end(s, p),
                first == p,
                end == e,
                start_b == byte_pos(s, p),
                end_b == byte_pos(s, e),
                p < e <= s.len(),
                forall|j: int| p <= j < e ==> is_digit(s[j]),
                first + 1 <= i <= end,
                val == digits_val(s, p, i as nat),
            ensures
                i == end,
                val == digits_val(s, p, e),
            decreases end - i,
        {
            if i >= end {
                break ;
            }
            let c2 = self.source.get_char(i);
            let d = digit_value(c2);
            let v64: u64 = val as u64 * 10 + d as u64;
            proof {
                assert(digits_val(s, p, (i + 1) as nat) == digits_val(s, p, i as nat) * 10
                    + digit_val(s[i as int]));
            }
            if v64 > 0xFFFF_FFFFu64 {
                proof {
                    lemma_digits_val_grows(s, p, e);
                }
                return Err(ScanError::IntegerOverflow { start: start_b, end: end_b });
            }
            val = v64 as u32;
            i = i + 1;
        }
        Ok((Kind::UnsignedInteger, TokenValue::Integer(val)))
    }

    /// Scans a string literal whose opening quote was just consumed.
    /// Two adjacent quotes inside the literal collapse to one literal
    /// quote; any other character after a closing quote ends the
    /// literal.  An unterminated literal silently absorbs the remainder
    /// of the input, and a quote still pending at that point is stripped
    /// from the value.
    fn string(&mut self) -> (r: (Kind, TokenValue))
        requires
            old(self).wf(),
        ensures
            final(self).wf(),
            final(self).text() == old(self).text(),
            ({
                let sc = string_scan(
                    old(self).text(),
                    old(self).cursor(),
                    false,
                    Seq::<char>::empty(),
                );
                &&& final(self).cursor() == sc.0
                &&& r.0 == Kind::String
                &&& r.1@ == ValueModel::Text(sc.1)
            }),
    {
        let ghost s = self.text();
        let ghost p0 = self.cursor();
        let mut buf = String::new();
        let mut in_quote = false;
        let mut ends_quote = false;
        loop
            invariant_except_break
                self.wf(),
                s == old(self).text(),
                p0 == old(self).cursor(),
                self.text() == s,
                p0 <= self.cursor() <= s.len(),
                string_scan(s, self.cursor(), in_quote, buf@) == string_scan(
                    s,
                    p0,
                    false,
                    Seq::<char>::empty(),
                ),
                ends_quote == (buf@.len() > 0 && buf@.last() == '\''),
                in_quote ==> ends_quote,
            ensures
                self.wf(),
                self.text() == s,
                ends_quote == (buf@.len() > 0 && buf@.last() == '\''),
                string_scan(s, p0, false, Seq::<char>::empty()) == (
                    self.cursor(),
                    strip_quote(buf@),
                ),
            decreases s.len() - self.cursor(),
        {
            if self.pos >= self.len {
                break ;
            }
            let c = self.source.get_char(self.pos);
            if in_quote {
                if c == '\'' {
                    in_quote = false;
                    self.advance(c);
                } else {
                    break ;
                }
            } else {
                if c == '\'' {
                    in_quote = true;
                }
                buf.push(c);
                ends_quote = c == '\'';
                self.advance(c);
            }
        }
        if ends_quote {
            let _ = buf.pop();
        }
        (Kind::String, TokenValue::String(buf))
    }

    /// Scans an operator or punctuation symbol whose first character `c`
    /// was just consumed, by maximal munch: a symbol complete after one
    /// character stops there; anything else extends as long as the next
    /// character forms part of some known symbol.  Recognized symbols
    /// carry no value; unrecognized text is handed back for diagnostics.
    fn symbol(&mut self, c: char) -> (r: (Kind, TokenValue))
        requires
            old(self).wf(),
            old(self).cursor() >= 1,
            old(self).text()[old(self).cursor() - 1] == c,
        ensures
            final(self).wf(),
            final(self).text() == old(self).text(),
            ({
                let s = old(self).text();
                let p = (old(self).cursor() - 1) as nat;
                let e = symbol_end(s, p);
                let text = s.subrange(p as int, e as int);
                let k = symbol_kind(text);
                &&& final(self).cursor() == e
                &&& r.0 == k
                &&& r.1@ == (if k == Kind::Unknown {
                    ValueModel::Text(text)
                } else {
                    ValueModel::Absent
                })
            }),
    {
        let ghost s = self.text();
        let ghost p = (self.cursor() - 1) as nat;
        let mut buf = String::new();
        buf.push(c);
        proof {
            assert(buf@ =~= s.subrange(p as int, self.cursor() as int));
        }
        if !single_symbol_char(c) {
            loop
                invariant_except_break
                    self.wf(),
                    s == old(self).text(),
                    p == old(self).cursor() - 1,
                    self.text() == s,
                    p + 1 <= self.cursor() <= s.len(),
                    buf@ == s.subrange(p as int, self.cursor() as int),
                    symbol_run_end(s, self.cursor()) == symbol_run_end(s, (p + 1) as nat),
                ensures
                    self.wf(),
                    self.text() == s,
                    self.cursor() == symbol_run_end(s, (p + 1) as nat),
                    buf@ == s.subrange(p as int, self.cursor() as int),
                decreases s.len() - self.cursor(),
            {
                if self.pos >= self.len {
                    break ;
                }
                let c2 = self.source.get_char(self.pos);
                if !symbol_char(c2) {
                    break ;
                }
                buf.push(c2);
                self.advance(c2);
                proof {
                    assert(buf@ =~= s.subrange(p as int, self.cursor() as int));
                }
            }
        }
        let kind = match_symbol(&buf);
        if kind != Kind::Unknown {
            (kind, TokenValue::Absent)
        } else {
            (kind, TokenValue::String(buf))
        }
    }

    /// Reads one token whose first character `c` was just consumed,
    /// dispatching on that character: letter, digit, quote, or symbol.
    fn token(&mut self, c: char) -> (r: Result<(Kind, TokenValue), ScanError>)
        requires
            old(self).wf(),
            old(self).cursor() >= 1,
            old(self).text()[old(self).cursor() - 1] == c,
        ensures
            final(self).wf(),
            final(self).text() == old(self).text(),
            ({
                let s = old(self).text();
                let p = (old(self).cursor() - 1) as nat;
                match token_step(s, p) {
                    Ok((t, q)) => {
                        &&& r matches Ok(kv)
                        &&& kv.0 == t.kind
                        &&& kv.1@ == t.value
                        &&& t.start == byte_pos(s, p) as int
                        &&& t.end == byte_pos(s, q) as int
                        &&& final(self).cursor() == q
                    },
                    Err((a, b)) => {
                        &&& r matches Err(err)
                        &&& err == (ScanError::IntegerOverflow { start: a as usize, end: b as usize })
                        &&& final(self).cursor() == digits_end(s, p)
                        &&& final(self).byte_cursor() == b
                    },
                }
            }),
    {
        let ghost s = self.text();
        let ghost p = (self.cursor() - 1) as nat;
        if letter_char(c) {
            proof {
                assert(alnum_end(s, p) == alnum_end(s, (p + 1) as nat));
            }
            let (kind, value) = self.name_keyword(c);
            Ok((kind, value))
        } else if digit_char(c) {
            proof {
                assert(digits_end(s, p) == digits_end(s, (p + 1) as nat));
            }
            self.unsigned_integer(c)
        } else if c == '\'' {
            let (kind, value) = self.string();
            Ok((kind, value))
        } else {
            let (kind, value) = self.symbol(c);
            Ok((kind, value))
        }
    }

    /// Produces the next token, advancing the cursor: filler is
    /// discarded first, then the token beginning at the cursor is read.
    /// Once only filler remains, the end-of-input token at the text's
    /// end is returned, and returned again on every further call.  The
    /// one error is an unsigned integer literal beyond the 32-bit range.
    pub fn read_next_token(&mut self) -> (r: Result<Token, ScanError>)
        requires
            old(self).wf(),
        ensures
            final(self).wf(),
            final(self).text() == old(self).text(),
            (match next_token(old(self).text(), old(self).cursor()) {
                Ok((t, q)) => r matches Ok(tok) && tok@ == t && final(self).cursor() == q
                    && final(self).byte_cursor() == t.end,
                Err((a, b)) => r matches Err(err) && err == (ScanError::IntegerOverflow {
                    start: a as usize,
                    end: b as usize,
                }) && final(self).byte_cursor() == b,
            }),
    {
        let ghost s = self.text();
        let ghost p0 = self.cursor();
        loop
            invariant
                self.wf(),
                s == old(self).text(),
                p0 == old(self).cursor(),
                self.text() == s,
                self.cursor() <= s.len(),
                skip_filler(s, self.cursor()) == skip_filler(s, p0),
            decreases s.len() - self.cursor(),
        {
            if self.pos >= self.len {
                return Ok(
                    Token {
                        kind: Kind::Eof,
                        start: self.bpos,
                        end: self.bpos,
                        value: TokenValue::Absent,
                    },
                );
            }
            let c = self.source.get_char(self.pos);
            if whitespace_char(c) || c == '{' || c == '/' {
                proof {
                    lemma_brace_close_bounds(s, (self.cursor() + 1) as nat);
                    lemma_slash_close_bounds(s, (self.cursor() + 1) as nat, false);
                }
                self.advance(c);
                self.comment(c);
            } else {
                let ghost p = self.cursor();
                proof {
                    assert(skip_filler(s, p) == p);
                    lemma_next_token(s, p0);
                }
                let start = self.bpos;
                self.advance(c);
                match self.token(c) {
                    Ok((kind, value)) => {
                        let tok = Token { kind, start, end: self.bpos, value };
                        proof {
                            assert(tok@ =~= next_token(s, p0)->Ok_0.0);
                        }
                        return Ok(tok);
                    },
                    Err(err) => {
                        return Err(err);
                    },
                }
            }
        }
    }

    /// Produces the complete ordered token sequence, ended by exactly
    /// one end-of-input token, or the error for an out-of-range integer
    /// literal, in which case no tokens are handed back.
    pub fn analyze(&mut self) -> (r: Result<Vec<Token>, ScanError>)
        requires
            old(self).wf(),
        ensures
            final(self).wf(),
            final(self).text() == old(self).text(),
            (match scan_from(old(self).text(), old(self).cursor()) {
                Ok(ts) => r matches Ok(v) && tokens_model(v@) == ts
                    && final(self).cursor() == old(self).text().len()
                    && final(self).byte_cursor() == byte_pos(
                    old(self).text(),
                    old(self).text().len(),
                ),
                Err((a, b)) => r matches Err(err) && err == (ScanError::IntegerOverflow {
                    start: a as usize,
                    end: b as usize,
                }) && final(self).byte_cursor() == b,
            }),
    {
        let ghost s = self.text();
        let ghost p0 = self.cursor();
        let mut token_vec: Vec<Token> = Vec::new();
        loop
            invariant_except_break
                self.wf(),
                s == old(self).text(),
                p0 == old(self).cursor(),
                self.text() == s,
                self.cursor() <= s.len(),
                (match scan_from(s, self.cursor()) {
                    Ok(rest) => scan_from(s, p0) matches Ok(full) && full == tokens_model(
                        token_vec@,
                    ) + rest,
                    Err(e) => scan_from(s, p0) matches Err(e2) && e2 == e,
                }),
            ensures
                self.wf(),
                self.text() == s,
                self.cursor() == s.len(),
                scan_from(s, p0) matches Ok(full) && full == tokens_model(token_vec@),
            decreases s.len() - self.cursor(),
        {
            let ghost q0 = self.cursor();
            proof {
                lemma_next_token(s, q0);
            }
            match self.read_next_token() {
                Err(err) => {
                    return Err(err);
                },
                Ok(tok) => {
                    let is_eof = tok.kind == Kind::Eof;
                    proof {
                        lemma_tokens_model_push(token_vec@, tok);
                    }
                    token_vec.push(tok);
                    proof {
                        if scan_from(s, q0) is Ok {
                            if !is_eof {
                                assert(scan_from(s, p0) matches Ok(full) && full == tokens_model(
                                    token_vec@,
                                ) + scan_from(s, self.cursor())->Ok_0) by {
                                    assert(tokens_model(token_vec@) + scan_from(
                                        s,
                                        self.cursor(),
                                    )->Ok_0 =~= scan_from(s, p0)->Ok_0);
                                }
                            }
                        }
                    }
                    if is_eof {
                        proof {
                            assert(tokens_model(token_vec@) =~= scan_from(s, p0)->Ok_0);
                        }
                        break ;
                    }
                },
            }
        }
        Ok(token_vec)
    }
}

} // verus!

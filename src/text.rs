//! Splitting source text into lines and tokens, and reading numeric operands.
use vstd::prelude::*;

verus! {

/// The blank characters that separate tokens on a line.
pub open spec fn is_space(c: char) -> bool {
    c == ' ' || c == '\t' || c == '\r' || c == '\x0b' || c == '\x0c'
}

/// The lines of `s` still to come, `cur` being the unfinished line before `s`.
/// A line ends at `'\n'`; a final line is kept only if it is not empty.
pub open spec fn lines_from(s: Seq<char>, cur: Seq<char>) -> Seq<Seq<char>>
    decreases s.len(),
{
    if s.len() == 0 {
        if cur.len() > 0 { seq![cur] } else { seq![] }
    } else if s[0] == '\n' {
        seq![cur] + lines_from(s.drop_first(), seq![])
    } else {
        lines_from(s.drop_first(), cur.push(s[0]))
    }
}

/// The lines of a source text, without their `'\n'`.
pub open spec fn lines(s: Seq<char>) -> Seq<Seq<char>> {
    lines_from(s, seq![])
}

/// The tokens still to come, `cur` being the unfinished token before `s`.
pub open spec fn tokens_from(s: Seq<char>, cur: Seq<char>) -> Seq<Seq<char>>
    decreases s.len(),
{
    if s.len() == 0 {
        if cur.len() > 0 { seq![cur] } else { seq![] }
    } else if is_space(s[0]) {
        (if cur.len() > 0 { seq![cur] } else { seq![] }) + tokens_from(s.drop_first(), seq![])
    } else {
        tokens_from(s.drop_first(), cur.push(s[0]))
    }
}

/// The maximal runs of non-blank characters of a line, in order.
pub open spec fn tokens(s: Seq<char>) -> Seq<Seq<char>> {
    tokens_from(s, seq![])
}

/// The pieces of `s` that a list of index pairs marks out.
pub open spec fn span_text(s: Seq<char>, spans: Seq<(usize, usize)>) -> Seq<Seq<char>> {
    spans.map_values(|p: (usize, usize)| s.subrange(p.0 as int, p.1 as int))
}

pub open spec fn spans_within(spans: Seq<(usize, usize)>, lo: int, hi: int) -> bool {
    forall|k: int| 0 <= k < spans.len() ==> lo <= #[trigger] spans[k].0 <= spans[k].1 <= hi
}

pub open spec fn is_digit(c: char) -> bool {
    '0' <= c && c <= '9'
}

pub open spec fn all_digits(s: Seq<char>) -> bool {
    forall|k: int| 0 <= k < s.len() ==> is_digit(#[trigger] s[k])
}

pub open spec fn digit_value(c: char) -> int {
    c as int - '0' as int
}

/// The decimal value of a string of digits.
pub open spec fn digits_value(s: Seq<char>) -> int
    decreases s.len(),
{
    if s.len() == 0 {
        0
    } else {
        10 * digits_value(s.drop_last()) + digit_value(s.last())
    }
}

/// The value of a non-empty string of digits, if it is at most `limit`.
pub open spec fn magnitude(s: Seq<char>, limit: int) -> Option<int> {
    if s.len() > 0 && all_digits(s) && digits_value(s) <= limit {
        Some(digits_value(s))
    } else {
        None
    }
}

/// `s` without one leading `'+'`.
pub open spec fn unsigned_part(s: Seq<char>) -> Seq<char> {
    if s.len() > 0 && s[0] == '+' {
        s.drop_first()
    } else {
        s
    }
}

/// A signed decimal 16-bit integer: an optional sign, then digits.
pub open spec fn parse_i16_spec(s: Seq<char>) -> Option<i16> {
    if s.len() > 0 && s[0] == '-' {
        match magnitude(s.drop_first(), 32768) {
            Some(m) => Some((-m) as i16),
            None => None,
        }
    } else {
        match magnitude(unsigned_part(s), 32767) {
            Some(m) => Some(m as i16),
            None => None,
        }
    }
}

/// An unsigned decimal 8-bit integer: an optional `'+'`, then digits.
pub open spec fn parse_u8_spec(s: Seq<char>) -> Option<u8> {
    match magnitude(unsigned_part(s), 255) {
        Some(m) => Some(m as u8),
        None => None,
    }
}

proof fn lemma_digits_value_prefix(s: Seq<char>, i: int)
    requires
        all_digits(s),
        0 <= i <= s.len(),
    ensures
        0 <= digits_value(s.take(i)) <= digits_value(s),
    decreases s.len(),
{
    if s.len() > 0 {
        let t = s.drop_last();
        assert(all_digits(t)) by {
            assert forall|k: int| 0 <= k < t.len() implies is_digit(#[trigger] t[k]) by {
                assert(t[k] == s[k]);
            }
        }
        assert(is_digit(s[s.len() - 1]));
        if i == s.len() {
            assert(s.take(i) =~= s);
            lemma_digits_value_prefix(t, t.len() as int);
            assert(t.take(t.len() as int) =~= t);
        } else {
            lemma_digits_value_prefix(t, i);
            assert(t.take(i) =~= s.take(i));
        }
    } else {
        assert(s.take(i) =~= s);
    }
}

/// The characters of `s`, one per element.
pub fn chars_of(s: &str) -> (r: Vec<char>)
    ensures
        r@ == s@,
{
    let n = s.unicode_len();
    let mut r: Vec<char> = Vec::new();
    let mut i: usize = 0;
    while i < n
        invariant
            n == s@.len(),
            i <= n,
            r@ == s@.take(i as int),
        decreases n - i,
    {
        r.push(s.get_char(i));
        i += 1;
        assert(r@ =~= s@.take(i as int));
    }
    assert(r@ =~= s@);
    r
}

/// Whether `chars[lo..hi]` is exactly `word`.
pub fn span_is(chars: &Vec<char>, lo: usize, hi: usize, word: &str) -> (r: bool)
    requires
        lo <= hi <= chars@.len(),
    ensures
        r == (chars@.subrange(lo as int, hi as int) == word@),
{
    let n = word.unicode_len();
    if hi - lo != n {
        return false;
    }
    let mut i: usize = 0;
    while i < n
        invariant
            n == word@.len(),
            hi - lo == n,
            lo <= hi <= chars@.len(),
            i <= n,
            forall|k: int| 0 <= k < i ==> chars@[lo + k] == word@[k],
        decreases n - i,
    {
        if chars[lo + i] != word.get_char(i) {
            assert(chars@.subrange(lo as int, hi as int)[i as int] != word@[i as int]);
            return false;
        }
        i += 1;
    }
    assert(chars@.subrange(lo as int, hi as int) =~= word@);
    true
}

/// The value of the digits `chars[lo..hi]`, if there is at least one, all are
/// decimal digits, and the value is at most `limit`.
pub fn parse_magnitude(chars: &Vec<char>, lo: usize, hi: usize, limit: u32) -> (r: Option<u32>)
    requires
        lo <= hi <= chars@.len(),
        limit <= 32768,
    ensures
        match magnitude(chars@.subrange(lo as int, hi as int), limit as int) {
            Some(m) => 0 <= m <= limit && r == Some(m as u32),
            None => r is None,
        },
{
    let ghost s = chars@.subrange(lo as int, hi as int);
    if lo == hi {
        return None;
    }
    let mut acc: u32 = 0;
    let mut i: usize = lo;
    while i < hi
        invariant
            lo <= i <= hi <= chars@.len(),
            s == chars@.subrange(lo as int, hi as int),
            limit <= 32768,
            all_digits(chars@.subrange(lo as int, i as int)),
            acc == digits_value(chars@.subrange(lo as int, i as int)),
            acc <= limit,
        decreases hi - i,
    {
        let c = chars[i];
        let ghost pre = chars@.subrange(lo as int, i as int);
        let ghost next = chars@.subrange(lo as int, i + 1);
        assert(next.drop_last() =~= pre);
        assert(next.last() == c);
        if !('0' <= c && c <= '9') {
            assert(!all_digits(s)) by {
                assert(s[i - lo] == c);
            }
            return None;
        }
        assert(all_digits(next)) by {
            assert forall|k: int| 0 <= k < next.len() implies is_digit(#[trigger] next[k]) by {
                if k < pre.len() {
                    assert(next[k] == pre[k]);
                }
            }
        }
        acc = acc * 10 + (c as u32 - '0' as u32);
        i += 1;
        if acc > limit {
            assert(magnitude(s, limit as int) is None) by {
                if all_digits(s) {
                    lemma_digits_value_prefix(s, i - lo);
                    assert(s.take(i - lo) =~= next);
                }
            }
            return None;
        }
    }
    assert(chars@.subrange(lo as int, i as int) =~= s);
    Some(acc)
}

/// `chars[lo..hi]` read as a signed decimal 16-bit integer.
pub fn parse_i16(chars: &Vec<char>, lo: usize, hi: usize) -> (r: Option<i16>)
    requires
        lo <= hi <= chars@.len(),
    ensures
        r == parse_i16_spec(chars@.subrange(lo as int, hi as int)),
{
    let ghost s = chars@.subrange(lo as int, hi as int);
    if lo < hi && chars[lo] == '-' {
        assert(chars@.subrange(lo + 1, hi as int) =~= s.drop_first());
        match parse_magnitude(chars, lo + 1, hi, 32768) {
            Some(m) => Some((0 - m as i32) as i16),
            None => None,
        }
    } else {
        let start = if lo < hi && chars[lo] == '+' { lo + 1 } else { lo };
        assert(chars@.subrange(start as int, hi as int) =~= unsigned_part(s));
        match parse_magnitude(chars, start, hi, 32767) {
            Some(m) => Some(m as i16),
            None => None,
        }
    }
}

/// `chars[lo..hi]` read as an unsigned decimal 8-bit integer.
pub fn parse_u8(chars: &Vec<char>, lo: usize, hi: usize) -> (r: Option<u8>)
    requires
        lo <= hi <= chars@.len(),
    ensures
        r == parse_u8_spec(chars@.subrange(lo as int, hi as int)),
{
    let ghost s = chars@.subrange(lo as int, hi as int);
    let start = if lo < hi && chars[lo] == '+' { lo + 1 } else { lo };
    assert(chars@.subrange(start as int, hi as int) =~= unsigned_part(s));
    match parse_magnitude(chars, start, hi, 255) {
        Some(m) => Some(m as u8),
        None => None,
    }
}

proof fn lemma_span_text_push(s: Seq<char>, spans: Seq<(usize, usize)>, p: (usize, usize), rest: Seq<Seq<char>>)
    ensures
        span_text(s, spans.push(p)) + rest
            == span_text(s, spans) + (seq![s.subrange(p.0 as int, p.1 as int)] + rest),
{
    assert(span_text(s, spans.push(p)) =~= span_text(s, spans).push(s.subrange(p.0 as int, p.1 as int)));
    assert(span_text(s, spans.push(p)) + rest
        =~= span_text(s, spans) + (seq![s.subrange(p.0 as int, p.1 as int)] + rest));
}

/// The lines of `chars`, each as the pair of indices that bound it.
pub fn line_spans(chars: &Vec<char>) -> (r: Vec<(usize, usize)>)
    ensures
        spans_within(r@, 0, chars@.len() as int),
        span_text(chars@, r@) == lines(chars@),
{
    let n = chars.len();
    let mut spans: Vec<(usize, usize)> = Vec::new();
    let mut start: usize = 0;
    let mut i: usize = 0;
    assert(chars@.skip(0) =~= chars@);
    assert(chars@.subrange(0, 0) =~= Seq::<char>::empty());
    assert(span_text(chars@, spans@) =~= Seq::<Seq<char>>::empty());
    assert(lines(chars@) =~= span_text(chars@, spans@) + lines(chars@));
    while i < n
        invariant
            start <= i <= n == chars@.len(),
            spans_within(spans@, 0, n as int),
            lines(chars@) == span_text(chars@, spans@) + lines_from(
                chars@.skip(i as int),
                chars@.subrange(start as int, i as int),
            ),
        decreases n - i,
    {
        let ghost s = chars@;
        assert(s.skip(i as int).drop_first() =~= s.skip(i + 1));
        assert(s.skip(i as int)[0] == s[i as int]);
        if chars[i] == '\n' {
            proof {
                lemma_span_text_push(s, spans@, (start, i), lines_from(s.skip(i + 1), seq![]));
                assert(s.subrange(i + 1, i + 1) =~= Seq::<char>::empty());
            }
            spans.push((start, i));
            start = i + 1;
        } else {
            assert(s.subrange(start as int, i as int).push(s[i as int]) =~= s.subrange(
                start as int,
                i + 1,
            ));
        }
        i += 1;
    }
    let ghost s = chars@;
    assert(s.skip(n as int) =~= Seq::<char>::empty());
    if start < n {
        proof {
            lemma_span_text_push(s, spans@, (start, n), seq![]);
            assert(span_text(s, spans@) + seq![s.subrange(start as int, n as int)]
                =~= span_text(s, spans@) + (seq![s.subrange(start as int, n as int)] + seq![]));
        }
        spans.push((start, n));
        assert(span_text(s, spans@) =~= span_text(s, spans@) + Seq::<Seq<char>>::empty());
    } else {
        assert(span_text(s, spans@) =~= span_text(s, spans@) + Seq::<Seq<char>>::empty());
    }
    spans
}

/// The tokens of `chars[lo..hi]`, each as the pair of indices that bound it.
pub fn token_spans(chars: &Vec<char>, lo: usize, hi: usize) -> (r: Vec<(usize, usize)>)
    requires
        lo <= hi <= chars@.len(),
    ensures
        spans_within(r@, lo as int, hi as int),
        span_text(chars@, r@) == tokens(chars@.subrange(lo as int, hi as int)),
{
    let mut spans: Vec<(usize, usize)> = Vec::new();
    let mut start: usize = lo;
    let mut i: usize = lo;
    let ghost s = chars@;
    assert(s.subrange(lo as int, lo as int) =~= Seq::<char>::empty());
    assert(span_text(s, spans@) =~= Seq::<Seq<char>>::empty());
    assert(tokens(s.subrange(lo as int, hi as int)) =~= span_text(s, spans@) + tokens(
        s.subrange(lo as int, hi as int),
    ));
    while i < hi
        invariant
            s == chars@,
            lo <= start <= i <= hi <= s.len(),
            spans_within(spans@, lo as int, hi as int),
            tokens(s.subrange(lo as int, hi as int)) == span_text(s, spans@) + tokens_from(
                s.subrange(i as int, hi as int),
                s.subrange(start as int, i as int),
            ),
        decreases hi - i,
    {
        assert(s.subrange(i as int, hi as int).drop_first() =~= s.subrange(i + 1, hi as int));
        assert(s.subrange(i as int, hi as int)[0] == s[i as int]);
        let c = chars[i];
        if c == ' ' || c == '\t' || c == '\r' || c == '\x0b' || c == '\x0c' {
            let ghost rest = tokens_from(s.subrange(i + 1, hi as int), seq![]);
            assert(s.subrange(i + 1, i + 1) =~= Seq::<char>::empty());
            if start < i {
                proof {
                    lemma_span_text_push(s, spans@, (start, i), rest);
                }
                spans.push((start, i));
            } else {
                assert(seq![] + rest =~= rest);
            }
            start = i + 1;
        } else {
            assert(s.subrange(start as int, i as int).push(s[i as int]) =~= s.subrange(
                start as int,
                i + 1,
            ));
        }
        i += 1;
    }
    assert(s.subrange(hi as int, hi as int) =~= Seq::<char>::empty());
    if start < hi {
        proof {
            lemma_span_text_push(s, spans@, (start, hi), seq![]);
            assert(seq![s.subrange(start as int, hi as int)] + Seq::<Seq<char>>::empty()
                =~= seq![s.subrange(start as int, hi as int)]);
        }
        spans.push((start, hi));
    }
    assert(span_text(s, spans@) =~= span_text(s, spans@) + Seq::<Seq<char>>::empty());
    spans
}

} // verus!

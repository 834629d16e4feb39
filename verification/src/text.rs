//! Text handling shared by the form-field and schedule parsers: white space,
//! trimming, splitting on a delimiter, and comparison of strings.

use vstd::prelude::*;
use vstd::string::StrSliceExecFns;
use vstd::utf8::{char_u32_cast, encode_utf8_decode_utf8};

verus! {

/// The code points that Unicode classifies as white space.
pub open spec fn is_space(c: char) -> bool {
    let n = c as u32;
    ||| (0x09 <= n <= 0x0D)
    ||| n == 0x20
    ||| n == 0x85
    ||| n == 0xA0
    ||| n == 0x1680
    ||| (0x2000 <= n <= 0x200A)
    ||| n == 0x2028
    ||| n == 0x2029
    ||| n == 0x202F
    ||| n == 0x205F
    ||| n == 0x3000
}

/// What separates the pieces of a text.
#[derive(Clone, Copy, Debug, PartialEq, Eq, Structural)]
pub enum Delimiter {
    /// A comma.
    Comma,
    /// Any single white-space character.
    Space,
    /// A slash.
    Slash,
    /// A hyphen.
    Dash,
}

/// Whether `c` is a separator under `delimiter`.
pub open spec fn separates(delimiter: Delimiter, c: char) -> bool {
    match delimiter {
        Delimiter::Comma => c == ',',
        Delimiter::Space => is_space(c),
        Delimiter::Slash => c == '/',
        Delimiter::Dash => c == '-',
    }
}

/// `s` without its leading white space.
pub open spec fn trim_start(s: Seq<char>) -> Seq<char>
    decreases s.len(),
{
    if s.len() > 0 && is_space(s[0]) {
        trim_start(s.drop_first())
    } else {
        s
    }
}

/// `s` without its trailing white space.
pub open spec fn trim_end(s: Seq<char>) -> Seq<char>
    decreases s.len(),
{
    if s.len() > 0 && is_space(s.last()) {
        trim_end(s.drop_last())
    } else {
        s
    }
}

/// `s` without leading and trailing white space.
pub open spec fn trimmed(s: Seq<char>) -> Seq<char> {
    trim_end(trim_start(s))
}

/// The pieces of `s` between separators, in order. A text with `n`
/// separators has `n + 1` pieces, some of which may be empty.
pub open spec fn split(s: Seq<char>, delimiter: Delimiter) -> Seq<Seq<char>>
    decreases s.len(),
{
    if s.len() == 0 {
        seq![Seq::<char>::empty()]
    } else {
        let before = split(s.drop_last(), delimiter);
        if separates(delimiter, s.last()) {
            before.push(Seq::<char>::empty())
        } else {
            before.drop_last().push(before.last().push(s.last()))
        }
    }
}

/// A half-open range of character positions within a text.
#[derive(Clone, Copy, Debug, PartialEq, Eq, Structural)]
pub struct Span {
    pub start: usize,
    pub end: usize,
}

impl Span {
    /// Whether the span lies within a text of `len` characters.
    pub open spec fn within(self, len: nat) -> bool {
        self.start <= self.end <= len
    }

    /// The characters of `s` that the span covers.
    pub open spec fn of(self, s: Seq<char>) -> Seq<char> {
        s.subrange(self.start as int, self.end as int)
    }
}

/// The texts that `spans` cover in `s`, in order.
pub open spec fn pieces(s: Seq<char>, spans: Seq<Span>) -> Seq<Seq<char>> {
    Seq::new(spans.len(), |i: int| spans[i].of(s))
}

/// The character sequences of a list of strings.
pub open spec fn texts(v: Seq<String>) -> Seq<Seq<char>> {
    v.map_values(|s: String| s@)
}

/// The character sequence of an optional string.
pub open spec fn opt_text(o: Option<String>) -> Option<Seq<char>> {
    match o {
        Some(s) => Some(s@),
        None => None,
    }
}

/// The names that a comma-separated field lists: the field is trimmed and
/// split at its commas, and each piece is trimmed in turn. A piece that is
/// empty after trimming still counts as a name.
pub open spec fn names_in(field: Seq<char>) -> Seq<Seq<char>> {
    split(trimmed(field), Delimiter::Comma).map_values(|piece: Seq<char>| trimmed(piece))
}

/// The value of a decimal digit.
pub open spec fn digit(c: char) -> Option<int> {
    let code = c as u32;
    if 0x30 <= code <= 0x39 {
        Some(code - 0x30)
    } else {
        None
    }
}

/// The value of a decimal numeral, of any length.
pub open spec fn number(s: Seq<char>) -> Option<int>
    decreases s.len(),
{
    if s.len() == 0 {
        None
    } else {
        match digit(s.last()) {
            None => None,
            Some(d) => if s.len() == 1 {
                Some(d)
            } else {
                match number(s.drop_last()) {
                    Some(v) => Some(10 * v + d),
                    None => None,
                }
            },
        }
    }
}

/// The number that a text spells in decimal, with or without a sign in
/// front of the digits.
pub open spec fn signed_number(text: Seq<char>) -> Option<int> {
    if text.len() > 0 && text[0] == '-' {
        match number(text.drop_first()) {
            Some(v) => Some(-v),
            None => None,
        }
    } else if text.len() > 0 && text[0] == '+' {
        number(text.drop_first())
    } else {
        number(text)
    }
}

/// The number that a text spells, if it spells one from -128 to 127.
pub open spec fn small_number(text: Seq<char>) -> Option<i8> {
    match signed_number(text) {
        Some(v) => if -128 <= v <= 127 {
            Some(v as i8)
        } else {
            None
        },
        None => None,
    }
}

/// Whether `a` comes before `b` in the order of dictionaries: the texts are
/// compared character by character, by code point, and a text comes before
/// every text that it begins.
pub open spec fn comes_before(a: Seq<char>, b: Seq<char>) -> bool
    decreases a.len(),
{
    if b.len() == 0 {
        false
    } else if a.len() == 0 {
        true
    } else if a[0] != b[0] {
        (a[0] as u32) < (b[0] as u32)
    } else {
        comes_before(a.drop_first(), b.drop_first())
    }
}

/// No text comes before itself.
pub proof fn lemma_before_irreflexive(a: Seq<char>)
    ensures
        !comes_before(a, a),
    decreases a.len(),
{
    if a.len() > 0 {
        lemma_before_irreflexive(a.drop_first());
    }
}

/// Of two different texts, one comes before the other.
pub proof fn lemma_before_total(a: Seq<char>, b: Seq<char>)
    ensures
        a == b || comes_before(a, b) || comes_before(b, a),
    decreases a.len(),
{
    if a.len() > 0 && b.len() > 0 {
        if a[0] == b[0] {
            lemma_before_total(a.drop_first(), b.drop_first());
            if a.drop_first() == b.drop_first() {
                assert(a =~= seq![a[0]] + a.drop_first());
                assert(b =~= seq![b[0]] + b.drop_first());
            }
        } else {
            char_u32_cast(a[0], a[0] as u32);
            char_u32_cast(b[0], b[0] as u32);
        }
    } else if a.len() == 0 && b.len() == 0 {
        assert(a =~= b);
    }
}

/// What comes before a text comes before all that the text comes before.
pub proof fn lemma_before_transitive(a: Seq<char>, b: Seq<char>, c: Seq<char>)
    requires
        comes_before(a, b),
        comes_before(b, c),
    ensures
        comes_before(a, c),
    decreases a.len(),
{
    if a.len() > 0 && a[0] == b[0] && b[0] == c[0] {
        lemma_before_transitive(a.drop_first(), b.drop_first(), c.drop_first());
    }
}

/// The single character that separates under `delimiter`. White space has
/// more than one, and the blank stands for all of them.
pub open spec fn mark_of(delimiter: Delimiter) -> char {
    match delimiter {
        Delimiter::Comma => ',',
        Delimiter::Space => ' ',
        Delimiter::Slash => '/',
        Delimiter::Dash => '-',
    }
}

/// The texts of `parts` in a row, with `mark` between each two of them.
pub open spec fn joined(parts: Seq<Seq<char>>, mark: char) -> Seq<char>
    decreases parts.len(),
{
    if parts.len() == 0 {
        Seq::empty()
    } else if parts.len() == 1 {
        parts[0]
    } else {
        joined(parts.drop_last(), mark) + seq![mark] + parts.last()
    }
}

/// No piece of a split text holds a separator.
pub proof fn lemma_split_pieces_are_clean(s: Seq<char>, delimiter: Delimiter)
    ensures
        forall|i: int, k: int|
            0 <= i < split(s, delimiter).len() && 0 <= k < split(s, delimiter)[i].len()
                ==> !separates(delimiter, #[trigger] split(s, delimiter)[i][k]),
    decreases s.len(),
{
    if s.len() > 0 {
        lemma_split_pieces_are_clean(s.drop_last(), delimiter);
        lemma_split_nonempty(s.drop_last(), delimiter);
    }
}

/// Where one character separates, the pieces of a text joined by that
/// character give the text back.
pub proof fn lemma_split_then_join(s: Seq<char>, delimiter: Delimiter)
    requires
        delimiter != Delimiter::Space,
    ensures
        joined(split(s, delimiter), mark_of(delimiter)) == s,
    decreases s.len(),
{
    let mark = mark_of(delimiter);
    if s.len() == 0 {
        assert(joined(split(s, delimiter), mark) =~= s);
    } else {
        let front = s.drop_last();
        let before = split(front, delimiter);
        lemma_split_then_join(front, delimiter);
        lemma_split_nonempty(front, delimiter);
        if separates(delimiter, s.last()) {
            let after = before.push(Seq::<char>::empty());
            assert(after.drop_last() =~= before);
            assert(joined(after, mark) =~= s);
        } else {
            let after = before.drop_last().push(before.last().push(s.last()));
            if before.len() == 1 {
                assert(joined(after, mark) =~= s);
            } else {
                assert(after.drop_last() =~= before.drop_last());
                assert(joined(after, mark) =~= joined(before, mark).push(s.last()));
                assert(joined(after, mark) =~= s);
            }
        }
    }
}

/// A trimmed text neither starts nor ends with white space.
pub proof fn lemma_trimmed_is_trim(s: Seq<char>)
    ensures
        trimmed(s).len() > 0 ==> !is_space(trimmed(s)[0]) && !is_space(trimmed(s).last()),
        trimmed(s).len() <= s.len(),
{
    lemma_trim_start(s);
    lemma_trim_end(trim_start(s));
}

/// What is left of a text without its leading white space is a tail of the
/// text, and does not start with white space.
proof fn lemma_trim_start(s: Seq<char>)
    ensures
        trim_start(s).len() <= s.len(),
        trim_start(s) == s.skip(s.len() - trim_start(s).len()),
        trim_start(s).len() > 0 ==> !is_space(trim_start(s)[0]),
    decreases s.len(),
{
    if s.len() > 0 && is_space(s[0]) {
        lemma_trim_start(s.drop_first());
        let rest = s.drop_first();
        assert(rest.skip(rest.len() - trim_start(rest).len()) =~= s.skip(
            s.len() - trim_start(s).len(),
        ));
    } else {
        assert(s.skip(0) =~= s);
    }
}

/// What is left of a text without its trailing white space is a head of
/// the text, and does not end with white space.
proof fn lemma_trim_end(s: Seq<char>)
    ensures
        trim_end(s).len() <= s.len(),
        trim_end(s) == s.take(trim_end(s).len() as int),
        trim_end(s).len() > 0 ==> !is_space(trim_end(s).last()),
    decreases s.len(),
{
    if s.len() > 0 && is_space(s.last()) {
        lemma_trim_end(s.drop_last());
        let rest = s.drop_last();
        assert(rest.take(trim_end(rest).len() as int) =~= s.take(trim_end(s).len() as int));
    } else {
        assert(s.take(s.len() as int) =~= s);
    }
}

/// Splitting never yields an empty list of pieces.
pub proof fn lemma_split_nonempty(s: Seq<char>, delimiter: Delimiter)
    ensures
        split(s, delimiter).len() >= 1,
    decreases s.len(),
{
    if s.len() > 0 {
        lemma_split_nonempty(s.drop_last(), delimiter);
    }
}

/// What `urlencoding::decode` makes of a text: the text with each `%xx`
/// replaced by the byte that it names, if the outcome is valid UTF-8.
pub uninterp spec fn percent_decoded(text: Seq<char>) -> Option<Seq<char>>;

/// Calls `urlencoding::decode`. The contract gives the outcome a name.
#[verifier::external_body]
pub(crate) fn percent_decode(text: &str) -> (r: Option<String>)
    ensures
        opt_text(r) == percent_decoded(text@),
{
    match urlencoding::decode(text) {
        Ok(decoded) => Some(decoded.into_owned()),
        Err(_) => None,
    }
}

/// Tells whether `c` is white space.
pub fn is_space_char(c: char) -> (r: bool)
    ensures
        r == is_space(c),
{
    let n: u32 = c as u32;
    (0x09 <= n && n <= 0x0D) || n == 0x20 || n == 0x85 || n == 0xA0 || n == 0x1680 || (0x2000 <= n
        && n <= 0x200A) || n == 0x2028 || n == 0x2029 || n == 0x202F || n == 0x205F || n == 0x3000
}

/// Tells whether `c` is a separator under `delimiter`.
pub fn is_separator(delimiter: Delimiter, c: char) -> (r: bool)
    ensures
        r == separates(delimiter, c),
{
    match delimiter {
        Delimiter::Comma => c == ',',
        Delimiter::Space => is_space_char(c),
        Delimiter::Slash => c == '/',
        Delimiter::Dash => c == '-',
    }
}

/// The characters of `s`, one element each.
pub fn chars_of(s: &str) -> (v: Vec<char>)
    ensures
        v@ == s@,
{
    broadcast use vstd::string::group_string_axioms;

    let mut v: Vec<char> = Vec::new();
    for c in it: s.chars()
        invariant
            v@ == it.history(),
            it.seq() == s@,
    {
        v.push(c);
    }
    assert(v@ =~= s@);
    v
}

/// Compares two texts without stopping at the first difference, so that the
/// time taken does not depend on where they differ.
pub fn same_text(a: &str, b: &str) -> (r: bool)
    ensures
        r == (a@ == b@),
{
    let x = a.as_bytes();
    let y = b.as_bytes();
    proof {
        encode_utf8_decode_utf8(a@);
        encode_utf8_decode_utf8(b@);
    }
    if x.len() != y.len() {
        return false;
    }
    let mut diff: u8 = 0;
    let mut i: usize = 0;
    assert(x@.take(0) =~= y@.take(0));
    while i < x.len()
        invariant
            i <= x.len(),
            x.len() == y.len(),
            diff == 0 <==> x@.take(i as int) == y@.take(i as int),
        decreases x.len() - i,
    {
        let p: u8 = x[i];
        let q: u8 = y[i];
        let d: u8 = p ^ q;
        assert(d == 0 <==> p == q) by (bit_vector)
            requires
                d == p ^ q,
        ;
        assert(diff | d == 0 <==> diff == 0 && d == 0) by (bit_vector);
        proof {
            let xs = x@.take(i + 1);
            let ys = y@.take(i + 1);
            assert(xs.drop_last() =~= x@.take(i as int));
            assert(ys.drop_last() =~= y@.take(i as int));
            assert(xs =~= x@.take(i as int).push(p));
            assert(ys =~= y@.take(i as int).push(q));
            assert(xs.last() == p && ys.last() == q);
        }
        diff = diff | d;
        i = i + 1;
    }
    assert(x@.take(i as int) =~= x@);
    assert(y@.take(i as int) =~= y@);
    diff == 0
}

/// The largest number that [`parse_number`] tells apart; larger ones count
/// as this one.
pub const NUMBER_CAP: u32 = 10000;

/// `v`, or [`NUMBER_CAP`] if that is less.
pub open spec fn capped(v: int) -> int {
    if v < NUMBER_CAP {
        v
    } else {
        NUMBER_CAP as int
    }
}

/// A numeral consists of digits only.
proof fn lemma_number_digits(s: Seq<char>, i: int)
    requires
        number(s) is Some,
        0 <= i < s.len(),
    ensures
        digit(s[i]) is Some,
    decreases s.len(),
{
    if i < s.len() - 1 {
        lemma_number_digits(s.drop_last(), i);
    }
}

/// Reads the numeral `chars[span]`. Values above [`NUMBER_CAP`] are
/// reported as [`NUMBER_CAP`].
pub fn parse_number(chars: &Vec<char>, span: Span) -> (r: Option<u32>)
    requires
        span.within(chars@.len()),
    ensures
        match r {
            Some(v) => number(span.of(chars@)) matches Some(n) && v == capped(n) && n >= 0,
            None => number(span.of(chars@)) is None,
        },
{
    let ghost s = span.of(chars@);
    if span.start == span.end {
        return None;
    }
    let mut value: u32 = 0;
    let mut i: usize = span.start;
    while i < span.end
        invariant
            span.start <= i <= span.end <= chars@.len(),
            s == span.of(chars@),
            value <= NUMBER_CAP,
            i == span.start ==> value == 0,
            i > span.start ==> (number(s.take(i - span.start)) matches Some(n) && value == capped(n)
                && n >= 0),
        decreases span.end - i,
    {
        let code: u32 = chars[i] as u32;
        let ghost k = i - span.start;
        assert(s[k] == chars@[i as int]);
        assert(s.take(k + 1).drop_last() =~= s.take(k));
        assert(s.take(k + 1).last() == s[k]);
        if code < 0x30 || code > 0x39 {
            proof {
                if number(s) is Some {
                    lemma_number_digits(s, k);
                }
            }
            return None;
        }
        let d: u32 = code - 0x30;
        let next: u32 = value * 10 + d;
        value = if next < NUMBER_CAP {
            next
        } else {
            NUMBER_CAP
        };
        i = i + 1;
    }
    assert(s.take(i - span.start) =~= s);
    Some(value)
}

/// Reads a number from -128 to 127: decimal digits, with or without a sign
/// in front. Anything else in the text, white space too, spoils it.
pub fn parse_small(text: &str) -> (r: Option<i8>)
    ensures
        r == small_number(text@),
{
    let chars = chars_of(text);
    let len = chars.len();
    let negative = len > 0 && chars[0] == '-';
    let signed = negative || (len > 0 && chars[0] == '+');
    let digits = Span {
        start: if signed {
            1
        } else {
            0
        },
        end: len,
    };
    proof {
        if signed {
            assert(digits.of(chars@) =~= text@.drop_first());
        } else {
            assert(digits.of(chars@) =~= text@);
        }
    }
    match parse_number(&chars, digits) {
        Some(v) => {
            if negative {
                if v <= 128 {
                    Some((0 - v as i16) as i8)
                } else {
                    None
                }
            } else if v <= 127 {
                Some(v as i8)
            } else {
                None
            }
        },
        None => None,
    }
}

/// Tells whether `a` comes before `b` in the order of dictionaries.
pub fn text_before(a: &Vec<char>, b: &Vec<char>) -> (r: bool)
    ensures
        r == comes_before(a@, b@),
{
    let mut i: usize = 0;
    assert(a@.skip(0) =~= a@ && b@.skip(0) =~= b@);
    while i < a.len() && i < b.len() && a[i] == b[i]
        invariant
            i <= a@.len(),
            i <= b@.len(),
            comes_before(a@, b@) == comes_before(a@.skip(i as int), b@.skip(i as int)),
        decreases a@.len() - i,
    {
        assert(a@.skip(i as int).drop_first() =~= a@.skip(i + 1));
        assert(b@.skip(i as int).drop_first() =~= b@.skip(i + 1));
        i = i + 1;
    }
    if i == b.len() {
        false
    } else if i == a.len() {
        true
    } else {
        (a[i] as u32) < (b[i] as u32)
    }
}

/// The span of `chars[span]` that is left when white space is removed from
/// both of its ends.
pub fn trim_span(chars: &Vec<char>, span: Span) -> (r: Span)
    requires
        span.within(chars@.len()),
    ensures
        r.within(chars@.len()),
        span.start <= r.start,
        r.end <= span.end,
        r.of(chars@) == trimmed(span.of(chars@)),
{
    let ghost s = chars@;
    let mut start: usize = span.start;
    while start < span.end && is_space_char(chars[start])
        invariant
            span.start <= start <= span.end <= s.len(),
            s == chars@,
            trim_start(span.of(s)) == trim_start(s.subrange(start as int, span.end as int)),
        decreases span.end - start,
    {
        assert(s.subrange(start as int, span.end as int).drop_first() =~= s.subrange(
            start + 1,
            span.end as int,
        ));
        start = start + 1;
    }
    let mut end: usize = span.end;
    while start < end && is_space_char(chars[end - 1])
        invariant
            span.start <= start <= end <= span.end <= s.len(),
            s == chars@,
            trim_start(span.of(s)) == s.subrange(start as int, span.end as int),
            trimmed(span.of(s)) == trim_end(s.subrange(start as int, end as int)),
        decreases end - start,
    {
        assert(s.subrange(start as int, end as int).drop_last() =~= s.subrange(
            start as int,
            end - 1,
        ));
        end = end - 1;
    }
    Span { start, end }
}

/// The spans of the pieces of `chars[span]` between separators, in order.
pub fn split_span(chars: &Vec<char>, span: Span, delimiter: Delimiter) -> (r: Vec<Span>)
    requires
        span.within(chars@.len()),
    ensures
        pieces(chars@, r@) == split(span.of(chars@), delimiter),
        forall|i: int| 0 <= i < r@.len() ==> (#[trigger] r@[i]).within(chars@.len()),
{
    let ghost s = chars@;
    let mut done: Vec<Span> = Vec::new();
    let mut from: usize = span.start;
    let mut i: usize = span.start;
    assert(s.subrange(span.start as int, span.start as int) =~= Seq::<char>::empty());
    assert(pieces(s, done@.push(Span { start: from, end: i })) =~= seq![Seq::<char>::empty()]);
    while i < span.end
        invariant
            span.start <= from <= i <= span.end <= s.len(),
            s == chars@,
            forall|k: int| 0 <= k < done@.len() ==> (#[trigger] done@[k]).within(s.len()),
            pieces(s, done@.push(Span { start: from, end: i })) == split(
                s.subrange(span.start as int, i as int),
                delimiter,
            ),
        decreases span.end - i,
    {
        let ghost seen = s.subrange(span.start as int, i as int);
        let ghost next = s.subrange(span.start as int, i + 1);
        let ghost before = pieces(s, done@.push(Span { start: from, end: i }));
        assert(next.drop_last() =~= seen);
        assert(next.last() == s[i as int]);
        assert(before.last() == s.subrange(from as int, i as int));
        assert(before.drop_last() =~= pieces(s, done@));
        if is_separator(delimiter, chars[i]) {
            done.push(Span { start: from, end: i });
            from = i + 1;
            assert(s.subrange(from as int, from as int) =~= Seq::<char>::empty());
            assert(pieces(s, done@.push(Span { start: from, end: (i + 1) as usize })) =~= before.push(
                Seq::<char>::empty(),
            ));
        } else {
            assert(s.subrange(from as int, i + 1) =~= s.subrange(from as int, i as int).push(
                s[i as int],
            ));
            assert(pieces(s, done@.push(Span { start: from, end: (i + 1) as usize }))
                =~= before.drop_last().push(before.last().push(s[i as int])));
        }
        i = i + 1;
    }
    done.push(Span { start: from, end: i });
    assert(s.subrange(span.start as int, i as int) == span.of(s));
    done
}

/// The text that `span` covers in `s`, as a string of its own.
pub fn text_of(s: &str, span: Span) -> (r: String)
    requires
        span.within(s@.len()),
    ensures
        r@ == span.of(s@),
{
    s.substring_char(span.start, span.end).to_owned()
}

/// Reads a comma-separated field of names. The result is `None` when the
/// field holds nothing but white space.
pub fn parse_names(field: &str) -> (r: Option<Vec<String>>)
    ensures
        match r {
            Some(names) => trimmed(field@).len() > 0 && texts(names@) == names_in(field@),
            None => trimmed(field@).len() == 0,
        },
{
    let chars = chars_of(field);
    let all = Span { start: 0, end: chars.len() };
    assert(all.of(chars@) =~= field@);
    let body = trim_span(&chars, all);
    if body.start == body.end {
        return None;
    }
    let spans = split_span(&chars, body, Delimiter::Comma);
    let ghost parts = split(trimmed(field@), Delimiter::Comma);
    assert(pieces(chars@, spans@).len() == spans@.len());
    let mut names: Vec<String> = Vec::new();
    let mut i: usize = 0;
    while i < spans.len()
        invariant
            i <= spans@.len(),
            chars@ == field@,
            spans@.len() == parts.len(),
            pieces(chars@, spans@) == parts,
            forall|k: int| 0 <= k < spans@.len() ==> (#[trigger] spans@[k]).within(chars@.len()),
            names@.len() == i,
            forall|k: int| 0 <= k < i ==> (#[trigger] names@[k])@ == trimmed(parts[k]),
        decreases spans@.len() - i,
    {
        assert(spans@[i as int].within(chars@.len()));
        assert(pieces(chars@, spans@)[i as int] == spans@[i as int].of(chars@));
        let inner = trim_span(&chars, spans[i]);
        names.push(text_of(field, inner));
        i = i + 1;
    }
    assert(texts(names@) =~= names_in(field@));
    Some(names)
}

} // verus!

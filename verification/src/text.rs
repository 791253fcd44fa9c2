use vstd::prelude::*;
use vstd::utf8::{encode_scalar, encode_utf8};

verus! {

/// Unicode `White_Space` characters, the set `char::is_whitespace` tests.
pub open spec fn is_ws(c: char) -> bool {
    ('\u{9}' <= c && c <= '\u{d}') || c == ' ' || c == '\u{85}' || c == '\u{a0}' || c
        == '\u{1680}' || ('\u{2000}' <= c && c <= '\u{200a}') || c == '\u{2028}' || c
        == '\u{2029}' || c == '\u{202f}' || c == '\u{205f}' || c == '\u{3000}'
}

pub fn is_whitespace(c: char) -> (r: bool)
    ensures
        r == is_ws(c),
{
    ('\u{9}' <= c && c <= '\u{d}') || c == ' ' || c == '\u{85}' || c == '\u{a0}' || c
        == '\u{1680}' || ('\u{2000}' <= c && c <= '\u{200a}') || c == '\u{2028}' || c
        == '\u{2029}' || c == '\u{202f}' || c == '\u{205f}' || c == '\u{3000}'
}

/// Index of the first non-whitespace character at or after `i`.
pub open spec fn skip_ws_from(s: Seq<char>, i: int) -> int
    decreases s.len() - i,
{
    if i < 0 || i >= s.len() || !is_ws(s[i]) {
        i
    } else {
        skip_ws_from(s, i + 1)
    }
}

/// Index just after the last non-whitespace character before `j`.
pub open spec fn trim_end_at(s: Seq<char>, j: int) -> int
    decreases j,
{
    if j <= 0 || j > s.len() || !is_ws(s[j - 1]) {
        j
    } else {
        trim_end_at(s, j - 1)
    }
}

pub open spec fn trim_start_spec(s: Seq<char>) -> Seq<char> {
    s.subrange(skip_ws_from(s, 0), s.len() as int)
}

/// `s` without leading and trailing whitespace.
pub open spec fn trim_spec(s: Seq<char>) -> Seq<char> {
    let a = skip_ws_from(s, 0);
    let b = trim_end_at(s, s.len() as int);
    if a >= b {
        Seq::empty()
    } else {
        s.subrange(a, b)
    }
}

/// End of the run of non-whitespace characters that starts at `i`.
pub open spec fn word_end(s: Seq<char>, i: int) -> int
    decreases s.len() - i,
{
    if i < 0 || i >= s.len() || is_ws(s[i]) {
        i
    } else {
        word_end(s, i + 1)
    }
}

/// The whitespace-separated words of `s` from index `i` on.
pub open spec fn words_from(s: Seq<char>, i: int) -> Seq<Seq<char>>
    decreases s.len() - i, 1int,
{
    let a = skip_ws_from(s, i);
    if i < 0 || a < i || a >= s.len() {
        Seq::empty()
    } else {
        words_after(s, a)
    }
}

pub open spec fn words_after(s: Seq<char>, a: int) -> Seq<Seq<char>>
    decreases s.len() - a, 0int,
{
    let e = word_end(s, a);
    if a < 0 || a >= s.len() || e <= a || e > s.len() {
        Seq::empty()
    } else {
        seq![s.subrange(a, e)] + words_from(s, e)
    }
}

/// The whitespace-separated words of `s`, as `split_whitespace` yields them.
pub open spec fn words(s: Seq<char>) -> Seq<Seq<char>> {
    words_from(s, 0)
}

proof fn lemma_skip_ws_from(s: Seq<char>, i: int)
    requires
        0 <= i <= s.len(),
    ensures
        i <= skip_ws_from(s, i) <= s.len(),
        skip_ws_from(s, i) < s.len() ==> !is_ws(s[skip_ws_from(s, i)]),
        forall|k: int| i <= k < skip_ws_from(s, i) ==> is_ws(#[trigger] s[k]),
    decreases s.len() - i,
{
    if i < s.len() && is_ws(s[i]) {
        lemma_skip_ws_from(s, i + 1);
    }
}

proof fn lemma_word_end(s: Seq<char>, i: int)
    requires
        0 <= i <= s.len(),
    ensures
        i <= word_end(s, i) <= s.len(),
        word_end(s, i) < s.len() ==> is_ws(s[word_end(s, i)]),
    decreases s.len() - i,
{
    if i < s.len() && !is_ws(s[i]) {
        lemma_word_end(s, i + 1);
    }
}

proof fn lemma_trim_end(s: Seq<char>, j: int)
    requires
        0 <= j <= s.len(),
    ensures
        0 <= trim_end_at(s, j) <= j,
        trim_end_at(s, j) > 0 ==> !is_ws(s[trim_end_at(s, j) - 1]),
        forall|k: int| trim_end_at(s, j) <= k < j ==> is_ws(#[trigger] s[k]),
    decreases j,
{
    if j > 0 && is_ws(s[j - 1]) {
        lemma_trim_end(s, j - 1);
    }
}

fn first_non_ws(s: &[char], from: usize) -> (r: usize)
    requires
        from <= s@.len(),
    ensures
        r == skip_ws_from(s@, from as int),
        from <= r <= s@.len(),
{
    let mut i = from;
    while i < s.len() && is_whitespace(s[i])
        invariant
            from <= i <= s@.len(),
            skip_ws_from(s@, i as int) == skip_ws_from(s@, from as int),
        decreases s@.len() - i,
    {
        i += 1;
    }
    i
}

fn end_of_word(s: &[char], from: usize) -> (r: usize)
    requires
        from <= s@.len(),
    ensures
        r == word_end(s@, from as int),
        from <= r <= s@.len(),
{
    let mut i = from;
    while i < s.len() && !is_whitespace(s[i])
        invariant
            from <= i <= s@.len(),
            word_end(s@, i as int) == word_end(s@, from as int),
        decreases s@.len() - i,
    {
        i += 1;
    }
    i
}

fn copy_range(s: &[char], a: usize, b: usize) -> (r: Vec<char>)
    requires
        a <= b <= s@.len(),
    ensures
        r@ == s@.subrange(a as int, b as int),
{
    let mut out: Vec<char> = Vec::new();
    let mut i = a;
    while i < b
        invariant
            a <= i <= b <= s@.len(),
            out@ == s@.subrange(a as int, i as int),
        decreases b - i,
    {
        out.push(s[i]);
        i += 1;
        assert(out@ =~= s@.subrange(a as int, i as int));
    }
    out
}

/// The characters of `s` from index `a` on.
pub fn suffix_from(s: &[char], a: usize) -> (r: Vec<char>)
    requires
        a <= s@.len(),
    ensures
        r@ == s@.subrange(a as int, s@.len() as int),
{
    copy_range(s, a, s.len())
}

/// `s` without leading whitespace.
pub fn trim_start(s: &[char]) -> (r: Vec<char>)
    ensures
        r@ == trim_start_spec(s@),
{
    let a = first_non_ws(s, 0);
    copy_range(s, a, s.len())
}

/// `s` without leading and trailing whitespace.
pub fn trim(s: &[char]) -> (r: Vec<char>)
    ensures
        r@ == trim_spec(s@),
{
    let a = first_non_ws(s, 0);
    let mut b = s.len();
    while b > 0 && is_whitespace(s[b - 1])
        invariant
            b <= s@.len(),
            trim_end_at(s@, b as int) == trim_end_at(s@, s@.len() as int),
        decreases b,
    {
        b -= 1;
    }
    if a >= b {
        Vec::new()
    } else {
        copy_range(s, a, b)
    }
}

/// The whitespace-separated words of `s`.
pub fn split_words(s: &[char]) -> (r: Vec<Vec<char>>)
    ensures
        r@.len() == words(s@).len(),
        forall|i: int| 0 <= i < r@.len() ==> (#[trigger] r@[i])@ == words(s@)[i],
{
    let mut out: Vec<Vec<char>> = Vec::new();
    let mut i: usize = 0;
    let ghost mut done: Seq<Seq<char>> = Seq::empty();
    while i < s.len()
        invariant
            i <= s@.len(),
            out@.len() == done.len(),
            forall|k: int| 0 <= k < out@.len() ==> (#[trigger] out@[k])@ == done[k],
            done + words_from(s@, i as int) == words(s@),
        decreases s@.len() - i,
    {
        let a = first_non_ws(s, i);
        proof {
            lemma_skip_ws_from(s@, i as int);
        }
        if a >= s.len() {
            assert(words_from(s@, i as int) == Seq::<Seq<char>>::empty());
            i = a;
            assert(words_from(s@, i as int) == Seq::<Seq<char>>::empty());
        } else {
            let e = end_of_word(s, a);
            proof {
                lemma_word_end(s@, a as int);
                assert(e > a);
                assert(words_from(s@, i as int) == words_after(s@, a as int));
                assert(words_after(s@, a as int) == seq![s@.subrange(a as int, e as int)]
                    + words_from(s@, e as int));
            }
            let w = copy_range(s, a, e);
            out.push(w);
            proof {
                done = done.push(s@.subrange(a as int, e as int));
                assert(done + words_from(s@, e as int) =~= (done.drop_last() + seq![
                    s@.subrange(a as int, e as int),
                ]) + words_from(s@, e as int));
            }
            i = e;
        }
    }
    proof {
        assert(words_from(s@, i as int) == Seq::<Seq<char>>::empty());
        assert(done + Seq::<Seq<char>>::empty() =~= done);
    }
    out
}

/// Decimal digits of `n`, most significant first.
pub open spec fn decimal_chars(n: nat) -> Seq<char>
    decreases n,
{
    if n < 10 {
        seq![digit_char(n)]
    } else {
        decimal_chars(n / 10).push(digit_char(n % 10))
    }
}

pub open spec fn digit_char(d: nat) -> char {
    (('0' as u32) + d) as char
}

fn digit_of(d: u64) -> (c: char)
    requires
        d < 10,
    ensures
        c == digit_char(d as nat),
{
    let b: u8 = 0x30 + d as u8;
    b as char
}

/// Decimal text of `n`.
pub fn to_decimal(n: u64) -> (r: Vec<char>)
    ensures
        r@ == decimal_chars(n as nat),
    decreases n,
{
    if n < 10 {
        let mut v: Vec<char> = Vec::new();
        v.push(digit_of(n));
        v
    } else {
        let mut v = to_decimal(n / 10);
        v.push(digit_of(n % 10));
        v
    }
}

/// Appends the characters of `tail` to `out`.
pub fn push_all(out: &mut Vec<char>, tail: &[char])
    ensures
        final(out)@ == old(out)@ + tail@,
{
    let mut i: usize = 0;
    while i < tail.len()
        invariant
            i <= tail@.len(),
            out@ == old(out)@ + tail@.subrange(0, i as int),
        decreases tail@.len() - i,
    {
        out.push(tail[i]);
        i += 1;
        assert(out@ =~= old(out)@ + tail@.subrange(0, i as int));
    }
    assert(tail@.subrange(0, tail@.len() as int) =~= tail@);
}

/// Whether `s` is the text `t`.
pub fn chars_eq(s: &[char], t: &[char]) -> (r: bool)
    ensures
        r == (s@ == t@),
{
    if s.len() != t.len() {
        return false;
    }
    let mut i: usize = 0;
    while i < s.len()
        invariant
            s@.len() == t@.len(),
            i <= s@.len(),
            forall|k: int| 0 <= k < i ==> s@[k] == t@[k],
        decreases s@.len() - i,
    {
        if s[i] != t[i] {
            return false;
        }
        i += 1;
    }
    assert(s@ =~= t@);
    true
}

/// The value `str::parse::<usize>` gives a text: an optional `+`, then one
/// or more ASCII digits whose value fits.
pub open spec fn parse_usize_spec(s: Seq<char>) -> Option<usize> {
    let start: int = if s.len() > 0 && s[0] == '+' {
        1
    } else {
        0
    };
    if start >= s.len() {
        None
    } else if exists|k: int| start <= k < s.len() && !('0' <= #[trigger] s[k] && s[k] <= '9') {
        None
    } else if digits_value(s, start, s.len() as int) > usize::MAX {
        None
    } else {
        Some(digits_value(s, start, s.len() as int) as usize)
    }
}

/// Decimal value of the digit characters `s[a..b]`.
pub open spec fn digits_value(s: Seq<char>, a: int, b: int) -> int
    decreases b - a,
{
    if b <= a {
        0
    } else {
        digits_value(s, a, b - 1) * 10 + (s[b - 1] as int - '0' as int)
    }
}

proof fn lemma_digits_value_mono(s: Seq<char>, a: int, b1: int, b2: int)
    requires
        a <= b1 <= b2,
        forall|k: int| a <= k < b2 ==> '0' <= #[trigger] s[k] && s[k] <= '9',
    ensures
        0 <= digits_value(s, a, b1) <= digits_value(s, a, b2),
    decreases b2 - a,
{
    if b2 > a {
        if b1 < b2 {
            lemma_digits_value_mono(s, a, b1, b2 - 1);
        } else {
            lemma_digits_value_mono(s, a, b1 - 1, b2 - 1);
        }
    }
}

/// `str::parse::<usize>` on a text.
pub fn parse_usize(s: &[char]) -> (r: Option<usize>)
    ensures
        r == parse_usize_spec(s@),
{
    let start: usize = if s.len() > 0 && s[0] == '+' {
        1
    } else {
        0
    };
    if start >= s.len() {
        return None;
    }
    let mut i = start;
    let mut value: usize = 0;
    let mut overflow = false;
    while i < s.len()
        invariant
            start <= i <= s@.len(),
            start == (if s@.len() > 0 && s@[0] == '+' { 1int } else { 0int }),
            forall|k: int| start <= k < i ==> '0' <= #[trigger] s@[k] && s@[k] <= '9',
            !overflow ==> value == digits_value(s@, start as int, i as int),
            overflow ==> digits_value(s@, start as int, i as int) > usize::MAX,
        decreases s@.len() - i,
    {
        let c = s[i];
        if !('0' <= c && c <= '9') {
            return None;
        }
        proof {
            lemma_digits_value_mono(s@, start as int, i as int, i as int);
            if overflow {
                lemma_digits_value_mono(s@, start as int, i as int, i as int + 1);
            }
        }
        if !overflow {
            let d = (c as u32 - '0' as u32) as usize;
            match value.checked_mul(10) {
                Some(v) => match v.checked_add(d) {
                    Some(w) => {
                        value = w;
                    },
                    None => {
                        overflow = true;
                    },
                },
                None => {
                    overflow = true;
                },
            }
        }
        i += 1;
    }
    if overflow {
        None
    } else {
        Some(value)
    }
}


/// Size in bytes of a text (its UTF-8 encoding).
pub open spec fn byte_len(s: Seq<char>) -> nat {
    encode_utf8(s).len()
}

/// Encoding a concatenation gives the concatenated encodings.
pub proof fn lemma_encode_concat(a: Seq<char>, b: Seq<char>)
    ensures
        encode_utf8(a + b) == encode_utf8(a) + encode_utf8(b),
    decreases a.len(),
{
    if a.len() == 0 {
        assert(a + b =~= b);
        assert(encode_utf8(a) + encode_utf8(b) =~= encode_utf8(b));
    } else {
        assert((a + b).drop_first() =~= a.drop_first() + b);
        lemma_encode_concat(a.drop_first(), b);
        assert(encode_utf8(a + b) =~= encode_utf8(a) + encode_utf8(b));
    }
}

/// A single character encodes as its scalar's bytes, one to four of them.
pub proof fn lemma_encode_single(c: char)
    ensures
        encode_utf8(seq![c]) == encode_scalar(c as u32),
        1 <= byte_len(seq![c]) <= 4,
{
    assert(seq![c].drop_first() =~= Seq::<char>::empty());
    assert(encode_utf8(Seq::<char>::empty()) =~= Seq::<u8>::empty());
    assert(seq![c][0] == c);
    assert(encode_utf8(seq![c]) =~= encode_scalar(c as u32) + encode_utf8(Seq::<char>::empty()));
}

/// Appending a character adds its encoding's length.
pub proof fn lemma_byte_len_push(s: Seq<char>, c: char)
    ensures
        byte_len(s.push(c)) == byte_len(s) + byte_len(seq![c]),
        1 <= byte_len(seq![c]) <= 4,
{
    assert(s.push(c) =~= s + seq![c]);
    lemma_encode_concat(s, seq![c]);
    lemma_encode_single(c);
}

/// A piece of a text is no longer, in bytes, than the text.
pub proof fn lemma_byte_len_subrange(s: Seq<char>, a: int, b: int)
    requires
        0 <= a <= b <= s.len(),
    ensures
        byte_len(s.subrange(a, b)) <= byte_len(s),
{
    assert(s =~= s.subrange(0, a) + (s.subrange(a, b) + s.subrange(b, s.len() as int)));
    lemma_encode_concat(s.subrange(0, a), s.subrange(a, b) + s.subrange(b, s.len() as int));
    lemma_encode_concat(s.subrange(a, b), s.subrange(b, s.len() as int));
}

/// Size in bytes of one character's UTF-8 encoding.
pub fn char_byte_len(c: char) -> (n: usize)
    ensures
        n == byte_len(seq![c]),
        1 <= n <= 4,
{
    proof {
        lemma_encode_single(c);
        vstd::utf8::char_is_scalar(c);
    }
    let v = c as u32;
    if v < 0x80 {
        1
    } else if v < 0x800 {
        2
    } else if v < 0x1_0000 {
        3
    } else {
        4
    }
}

/// Size in bytes of a text given as characters.
pub fn text_byte_len(s: &[char]) -> (n: usize)
    requires
        byte_len(s@) <= usize::MAX,
    ensures
        n == byte_len(s@),
{
    let mut n: usize = 0;
    let mut i: usize = 0;
    while i < s.len()
        invariant
            i <= s@.len(),
            byte_len(s@) <= usize::MAX,
            n == byte_len(s@.subrange(0, i as int)),
        decreases s@.len() - i,
    {
        let k = char_byte_len(s[i]);
        proof {
            assert(s@.subrange(0, i as int + 1) =~= s@.subrange(0, i as int).push(s@[i as int]));
            lemma_byte_len_push(s@.subrange(0, i as int), s@[i as int]);
            lemma_byte_len_subrange(s@, 0, i as int + 1);
        }
        n = n + k;
        i += 1;
    }
    assert(s@.subrange(0, s@.len() as int) =~= s@);
    n
}


/// `String::push`. std documents that it appends the character to the end of
/// the string; the contract says the text grows by exactly that character.
#[verifier::external_body]
fn string_push(s: &mut String, c: char)
    ensures
        final(s)@ == old(s)@.push(c),
{
    s.push(c);
}

/// The characters as a `String`.
pub fn string_from_chars(chars: &[char]) -> (s: String)
    ensures
        s@ == chars@,
{
    let mut s = String::new();
    let mut i: usize = 0;
    while i < chars.len()
        invariant
            i <= chars@.len(),
            s@ == chars@.subrange(0, i as int),
        decreases chars@.len() - i,
    {
        string_push(&mut s, chars[i]);
        i += 1;
        assert(s@ =~= chars@.subrange(0, i as int));
    }
    assert(chars@.subrange(0, chars@.len() as int) =~= chars@);
    s
}

} // verus!

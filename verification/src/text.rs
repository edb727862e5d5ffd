//! Source text as bytes: white space, letter case, tokens and decimal
//! numbers.

use vstd::prelude::*;
use vstd::slice::slice_subrange;

verus! {

/// Whether a byte is white space: tab, line feed, vertical tab, form feed,
/// carriage return or space.
pub open spec fn is_space(c: u8) -> bool {
    (9 <= c <= 13) || c == 32
}

/// Whether a byte is white space.
#[verifier::when_used_as_spec(is_space)]
pub fn is_whitespace(c: u8) -> (space: bool)
    ensures
        space == is_space(c),
{
    (9 <= c && c <= 13) || c == 32
}

/// A byte with an upper-case letter turned into its lower-case form.
pub open spec fn lower(c: u8) -> u8 {
    if 65 <= c <= 90 {
        (c + 32) as u8
    } else {
        c
    }
}

/// A text with every upper-case letter turned into its lower-case form.
pub open spec fn lowered(s: Seq<u8>) -> Seq<u8> {
    s.map_values(|c: u8| lower(c))
}

/// The text in lower case.
pub fn to_lowercase(s: &[u8]) -> (low: Vec<u8>)
    ensures
        low@ == lowered(s@),
{
    let mut ret: Vec<u8> = Vec::new();
    let mut i: usize = 0;
    while i < s.len()
        invariant
            i <= s@.len(),
            ret@.len() == i,
            forall|k: int| 0 <= k < i ==> ret@[k] == lower(s@[k]),
        decreases s@.len() - i,
    {
        let c = s[i];
        if 65 <= c && c <= 90 {
            ret.push(c + 32);
        } else {
            ret.push(c);
        }
        i += 1;
    }
    assert(ret@ =~= lowered(s@));
    ret
}

/// A copy of a text.
pub fn to_vec(s: &[u8]) -> (copy: Vec<u8>)
    ensures
        copy@ == s@,
{
    let mut ret: Vec<u8> = Vec::new();
    let mut i: usize = 0;
    while i < s.len()
        invariant
            i <= s@.len(),
            ret@ == s@.subrange(0, i as int),
        decreases s@.len() - i,
    {
        ret.push(s[i]);
        assert(ret@ =~= s@.subrange(0, i + 1));
        i += 1;
    }
    assert(s@.subrange(0, s@.len() as int) =~= s@);
    ret
}

/// Whether two texts hold the same bytes.
pub fn same_bytes(a: &[u8], b: &[u8]) -> (same: bool)
    ensures
        same == (a@ == b@),
{
    if a.len() != b.len() {
        return false;
    }
    let mut i: usize = 0;
    while i < a.len()
        invariant
            i <= a@.len(),
            a@.len() == b@.len(),
            forall|k: int| 0 <= k < i ==> a@[k] == b@[k],
        decreases a@.len() - i,
    {
        if a[i] != b[i] {
            return false;
        }
        i += 1;
    }
    assert(a@ =~= b@);
    true
}

/// Whether the bytes of `token` are the characters of `name`.
pub open spec fn spells(token: Seq<u8>, name: Seq<char>) -> bool {
    token.len() == name.len() && forall|i: int|
        0 <= i < token.len() ==> token[i] as char == name[i]
}

/// Whether the bytes of `token` are the characters of `name`.
pub fn is_spelled(token: &[u8], name: &str) -> (same: bool)
    ensures
        same == spells(token@, name@),
{
    let n = name.unicode_len();
    if token.len() != n {
        return false;
    }
    let mut i: usize = 0;
    while i < n
        invariant
            i <= n,
            n == name@.len(),
            n == token@.len(),
            forall|j: int| 0 <= j < i ==> token@[j] as char == name@[j],
        decreases n - i,
    {
        if token[i] as char != name.get_char(i) {
            return false;
        }
        i += 1;
    }
    true
}

/// The first place at or after `from` that holds the byte `b`, or the
/// length of the text if there is none.
pub open spec fn next_byte(s: Seq<u8>, from: int, b: u8) -> int
    decreases s.len() - from,
{
    if from < 0 || from >= s.len() {
        s.len() as int
    } else if s[from] == b {
        from
    } else {
        next_byte(s, from + 1, b)
    }
}

/// The first place at or after `from` that holds white space, or the
/// length of the text if there is none.
pub open spec fn next_space(s: Seq<u8>, from: int) -> int
    decreases s.len() - from,
{
    if from < 0 || from >= s.len() {
        s.len() as int
    } else if is_space(s[from]) {
        from
    } else {
        next_space(s, from + 1)
    }
}

/// The first place at or after `from` that holds something other than
/// white space, or the length of the text if there is none.
pub open spec fn next_ink(s: Seq<u8>, from: int) -> int
    decreases s.len() - from,
{
    if from < 0 || from >= s.len() {
        s.len() as int
    } else if !is_space(s[from]) {
        from
    } else {
        next_ink(s, from + 1)
    }
}

/// `next_byte` finds the first such place and nothing before it.
pub proof fn lemma_next_byte(s: Seq<u8>, from: int, b: u8)
    requires
        0 <= from <= s.len(),
    ensures
        from <= next_byte(s, from, b) <= s.len(),
        next_byte(s, from, b) < s.len() ==> s[next_byte(s, from, b)] == b,
        forall|k: int| from <= k < next_byte(s, from, b) ==> s[k] != b,
    decreases s.len() - from,
{
    if from < s.len() && s[from] != b {
        lemma_next_byte(s, from + 1, b);
    }
}

/// `next_space` finds the first such place and nothing before it.
pub proof fn lemma_next_space(s: Seq<u8>, from: int)
    requires
        0 <= from <= s.len(),
    ensures
        from <= next_space(s, from) <= s.len(),
        next_space(s, from) < s.len() ==> is_space(s[next_space(s, from)]),
        forall|k: int| from <= k < next_space(s, from) ==> !is_space(s[k]),
    decreases s.len() - from,
{
    if from < s.len() && !is_space(s[from]) {
        lemma_next_space(s, from + 1);
    }
}

/// `next_ink` finds the first such place and nothing before it.
pub proof fn lemma_next_ink(s: Seq<u8>, from: int)
    requires
        0 <= from <= s.len(),
    ensures
        from <= next_ink(s, from) <= s.len(),
        next_ink(s, from) < s.len() ==> !is_space(s[next_ink(s, from)]),
        forall|k: int| from <= k < next_ink(s, from) ==> is_space(s[k]),
    decreases s.len() - from,
{
    if from < s.len() && is_space(s[from]) {
        lemma_next_ink(s, from + 1);
    }
}

/// The first place at or after `from` that holds the byte `b`.
pub fn find_byte(s: &[u8], from: usize, b: u8) -> (at: usize)
    requires
        from <= s@.len(),
    ensures
        at == next_byte(s@, from as int, b),
        from <= at <= s@.len(),
{
    let mut i: usize = from;
    while i < s.len() && s[i] != b
        invariant
            from <= i <= s@.len(),
            next_byte(s@, from as int, b) == next_byte(s@, i as int, b),
        decreases s@.len() - i,
    {
        i += 1;
    }
    i
}

/// The first place at or after `from` that holds white space.
pub fn find_space(s: &[u8], from: usize) -> (at: usize)
    requires
        from <= s@.len(),
    ensures
        at == next_space(s@, from as int),
        from <= at <= s@.len(),
{
    let mut i: usize = from;
    while i < s.len() && !is_whitespace(s[i])
        invariant
            from <= i <= s@.len(),
            next_space(s@, from as int) == next_space(s@, i as int),
        decreases s@.len() - i,
    {
        i += 1;
    }
    i
}

/// The first place at or after `from` that holds something other than
/// white space.
pub fn find_ink(s: &[u8], from: usize) -> (at: usize)
    requires
        from <= s@.len(),
    ensures
        at == next_ink(s@, from as int),
        from <= at <= s@.len(),
{
    let mut i: usize = from;
    while i < s.len() && is_whitespace(s[i])
        invariant
            from <= i <= s@.len(),
            next_ink(s@, from as int) == next_ink(s@, i as int),
        decreases s@.len() - i,
    {
        i += 1;
    }
    i
}

/// The tokens of a text from `from` on: the longest runs of bytes that
/// are not white space, in order.
pub open spec fn tokens_from(s: Seq<u8>, from: int) -> Seq<Seq<u8>>
    decreases s.len() - from,
{
    let start = next_ink(s, from);
    if from < 0 || start >= s.len() {
        seq![]
    } else {
        let end = next_space(s, start);
        proof {
            lemma_next_ink(s, from);
            lemma_next_space(s, start);
        }
        seq![s.subrange(start, end)] + tokens_from(s, end)
    }
}

/// The tokens of a text.
pub open spec fn tokens(s: Seq<u8>) -> Seq<Seq<u8>> {
    tokens_from(s, 0)
}

/// A list of texts as plain sequences.
pub open spec fn texts_view(list: Seq<Vec<u8>>) -> Seq<Seq<u8>> {
    list.map_values(|text: Vec<u8>| text@)
}

/// Splits a text into its tokens.
pub fn split_whitespace(s: &[u8]) -> (list: Vec<Vec<u8>>)
    ensures
        texts_view(list@) == tokens(s@),
{
    let mut ret: Vec<Vec<u8>> = Vec::new();
    let mut i: usize = 0;
    assert(texts_view(ret@) =~= seq![]);
    loop
        invariant
            i <= s@.len(),
            tokens(s@) == texts_view(ret@) + tokens_from(s@, i as int),
        ensures
            texts_view(ret@) == tokens(s@),
        decreases s@.len() - i,
    {
        let start = find_ink(s, i);
        if start >= s.len() {
            assert(texts_view(ret@) + seq![] =~= texts_view(ret@));
            break ;
        }
        let end = find_space(s, start);
        proof {
            lemma_next_ink(s@, i as int);
            lemma_next_space(s@, start as int);
        }
        let ghost before = texts_view(ret@);
        ret.push(to_vec(slice_subrange(s, start, end)));
        assert(texts_view(ret@) =~= before.push(s@.subrange(start as int, end as int)));
        assert(before + (seq![s@.subrange(start as int, end as int)] + tokens_from(s@, end as int))
            =~= before.push(s@.subrange(start as int, end as int)) + tokens_from(
            s@,
            end as int,
        ));
        i = end;
    }
    ret
}

/// Whether a byte is a decimal digit.
pub open spec fn is_digit(c: u8) -> bool {
    48 <= c <= 57
}

/// Whether a text holds decimal digits only.
pub open spec fn all_digits(s: Seq<u8>) -> bool {
    forall|i: int| 0 <= i < s.len() ==> is_digit(s[i])
}

/// The number that a text of decimal digits spells.
pub open spec fn digits_value(s: Seq<u8>) -> nat
    decreases s.len(),
{
    if s.len() == 0 {
        0
    } else {
        digits_value(s.drop_last()) * 10 + (s.last() - 48) as nat
    }
}

/// A text without the plus sign that may lead it.
pub open spec fn unsigned_part(s: Seq<u8>) -> Seq<u8> {
    if s.len() > 0 && s[0] == 43 {
        s.subrange(1, s.len() as int)
    } else {
        s
    }
}

/// The word that a text spells in decimal: after an optional plus sign,
/// one or more digits whose number fits in sixteen bits. Any other text
/// spells none.
pub open spec fn decimal_u16(s: Seq<u8>) -> Option<u16> {
    let body = unsigned_part(s);
    if body.len() > 0 && all_digits(body) && digits_value(body) <= 0xffff {
        Some(digits_value(body) as u16)
    } else {
        None
    }
}

/// More digits never spell a smaller number.
proof fn lemma_digits_value_grows(s: Seq<u8>, n: int)
    requires
        0 <= n <= s.len(),
    ensures
        digits_value(s.subrange(0, n)) <= digits_value(s),
    decreases s.len() - n,
{
    if n == s.len() {
        assert(s.subrange(0, n) =~= s);
    } else {
        lemma_digits_value_grows(s.drop_last(), n);
        assert(s.drop_last().subrange(0, n) =~= s.subrange(0, n));
    }
}

/// Reads a text as a decimal word.
pub fn parse_u16(s: &[u8]) -> (word: Option<u16>)
    ensures
        word == decimal_u16(s@),
{
    let start: usize = if s.len() > 0 && s[0] == 43 {
        1
    } else {
        0
    };
    let ghost body = unsigned_part(s@);
    assert(body == s@.subrange(start as int, s@.len() as int)) by {
        assert(s@.subrange(0, s@.len() as int) =~= s@);
    }
    if start == s.len() {
        return None;
    }
    let mut value: u32 = 0;
    let mut i: usize = start;
    assert(body.subrange(0, 0) =~= seq![]);
    while i < s.len()
        invariant
            start <= i <= s@.len(),
            body == s@.subrange(start as int, s@.len() as int),
            body == unsigned_part(s@),
            all_digits(body.subrange(0, i - start)),
            value == digits_value(body.subrange(0, i - start)),
            value <= 0xffff,
        decreases s@.len() - i,
    {
        let c = s[i];
        let ghost upto = body.subrange(0, i + 1 - start);
        assert(upto.drop_last() =~= body.subrange(0, i - start));
        assert(upto.last() == c);
        if c < 48 || c > 57 {
            assert(!is_digit(body[i - start]));
            return None;
        }
        value = value * 10 + (c - 48) as u32;
        if value > 0xffff {
            proof {
                lemma_digits_value_grows(body, i + 1 - start);
            }
            return None;
        }
        i += 1;
    }
    assert(body.subrange(0, body.len() as int) =~= body);
    Some(value as u16)
}

} // verus!

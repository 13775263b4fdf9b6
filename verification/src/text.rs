//! Text helpers: characters, whitespace-separated tokens, lines, indentation,
//! numbers in decimal.

use vstd::prelude::*;

verus! {

/// `String::push` of std appends one character to the end of the string.
pub assume_specification[ String::push ](s: &mut String, c: char)
    ensures
        final(s)@ == old(s)@.push(c),
;

/// The texts of a list of strings.
pub open spec fn texts(strings: Seq<String>) -> Seq<Seq<char>> {
    strings.map_values(|s: String| s@)
}

/// Copies the characters of a string into a vector.
pub fn to_chars(s: &str) -> (chars: Vec<char>)
    ensures
        chars@ == s@,
{
    let mut chars: Vec<char> = Vec::new();
    for c in it: s.chars()
        invariant
            it.seq() == s@,
            chars@ == it.seq().take(it.index() as int),
    {
        chars.push(c);
        assert(it.seq().take(it.index() + 1) =~= it.seq().take(it.index() as int).push(c));
    }
    assert(chars@ =~= s@);
    chars
}

/// Whether `c` has the Unicode property `White_Space`.
pub open spec fn is_whitespace(c: char) -> bool {
    let n = c as u32;
    (0x9 <= n <= 0xd) || n == 0x20 || n == 0x85 || n == 0xa0 || n == 0x1680 || (0x2000 <= n
        <= 0x200a) || n == 0x2028 || n == 0x2029 || n == 0x202f || n == 0x205f || n == 0x3000
}

/// Tests whether `c` is a whitespace character.
pub fn is_whitespace_char(c: char) -> (white: bool)
    ensures
        white == is_whitespace(c),
{
    let n: u32 = c as u32;
    (0x9 <= n && n <= 0xd) || n == 0x20 || n == 0x85 || n == 0xa0 || n == 0x1680 || (0x2000 <= n
        && n <= 0x200a) || n == 0x2028 || n == 0x2029 || n == 0x202f || n == 0x205f || n
        == 0x3000
}

/// Length of the longest prefix of `s` that holds no character for which `stop` holds.
pub open spec fn run_len(s: Seq<char>, stop: spec_fn(char) -> bool) -> nat
    decreases s.len(),
{
    if s.len() == 0 || stop(s[0]) {
        0
    } else {
        1 + run_len(s.skip(1), stop)
    }
}

/// The whitespace-separated tokens of `s`: its maximal runs of characters
/// that are not whitespace, in order.
pub open spec fn tokens_of(s: Seq<char>) -> Seq<Seq<char>>
    decreases s.len(),
    via tokens_of_decreases
{
    if s.len() == 0 {
        Seq::empty()
    } else if is_whitespace(s[0]) {
        tokens_of(s.skip(1))
    } else {
        let n = run_len(s, |c: char| is_whitespace(c));
        seq![s.take(n as int)] + tokens_of(s.skip(n as int))
    }
}

#[via_fn]
proof fn tokens_of_decreases(s: Seq<char>) {
    if s.len() > 0 && !is_whitespace(s[0]) {
        lemma_run_len_bounds(s, |c: char| is_whitespace(c));
    }
}

/// The lines of `s`: the pieces between its line feeds. A text without a
/// line feed is one line, and a text that ends in one has an empty last line.
pub open spec fn lines_of(s: Seq<char>) -> Seq<Seq<char>>
    decreases s.len(),
    via lines_of_decreases
{
    let n = run_len(s, |c: char| c == '\n');
    if n >= s.len() {
        seq![s]
    } else {
        seq![s.take(n as int)] + lines_of(s.skip(n as int + 1))
    }
}

#[via_fn]
proof fn lines_of_decreases(s: Seq<char>) {
    lemma_run_len_bounds(s, |c: char| c == '\n');
}

/// A run is no longer than the text, and not empty where the text starts
/// with a character that does not stop it.
pub proof fn lemma_run_len_bounds(s: Seq<char>, stop: spec_fn(char) -> bool)
    ensures
        run_len(s, stop) <= s.len(),
        s.len() > 0 && !stop(s[0]) ==> run_len(s, stop) >= 1,
    decreases s.len(),
{
    if s.len() > 0 && !stop(s[0]) {
        lemma_run_len_bounds(s.skip(1), stop);
    }
}

/// A run ends at the first stopping character or at the end of the text.
pub proof fn lemma_run_len_is(s: Seq<char>, stop: spec_fn(char) -> bool, n: int)
    requires
        0 <= n <= s.len(),
        forall|k: int| 0 <= k < n ==> !stop(#[trigger] s[k]),
        n == s.len() || stop(s[n]),
    ensures
        run_len(s, stop) == n,
    decreases n,
{
    if n > 0 {
        let rest = s.skip(1);
        assert forall|k: int| 0 <= k < n - 1 implies !stop(#[trigger] rest[k]) by {
            assert(rest[k] == s[k + 1]);
        }
        lemma_run_len_is(rest, stop, n - 1);
    }
}

/// Copies `chars[from..to]` into a new string.
fn string_of(chars: &Vec<char>, from: usize, to: usize) -> (s: String)
    requires
        from <= to <= chars@.len(),
    ensures
        s@ == chars@.subrange(from as int, to as int),
{
    let mut s = String::new();
    let mut i: usize = from;
    while i < to
        invariant
            from <= i <= to <= chars@.len(),
            s@ == chars@.subrange(from as int, i as int),
        decreases to - i,
    {
        s.push(chars[i]);
        assert(chars@.subrange(from as int, i + 1) =~= chars@.subrange(from as int, i as int).push(
            chars@[i as int],
        ));
        i += 1;
    }
    s
}

/// Splits a line into its whitespace-separated tokens.
pub fn split_tokens(line: &str) -> (tokens: Vec<String>)
    ensures
        texts(tokens@) == tokens_of(line@),
{
    let chars = to_chars(line);
    let ghost stop = |c: char| is_whitespace(c);
    let mut tokens: Vec<String> = Vec::new();
    let mut i: usize = 0;
    proof {
        assert(chars@.skip(0) =~= chars@);
        assert(texts(tokens@) + tokens_of(chars@) =~= tokens_of(chars@));
    }
    while i < chars.len()
        invariant
            i <= chars@.len(),
            chars@ == line@,
            stop == (|c: char| is_whitespace(c)),
            texts(tokens@) + tokens_of(chars@.skip(i as int)) == tokens_of(chars@),
        decreases chars.len() - i,
    {
        let ghost tail = chars@.skip(i as int);
        if is_whitespace_char(chars[i]) {
            assert(tail.skip(1) =~= chars@.skip(i + 1));
            i += 1;
        } else {
            let start: usize = i;
            while i < chars.len() && !is_whitespace_char(chars[i])
                invariant
                    start <= i <= chars@.len(),
                    forall|k: int| start <= k < i ==> !is_whitespace(#[trigger] chars@[k]),
                decreases chars.len() - i,
            {
                i += 1;
            }
            let word = string_of(&chars, start, i);
            proof {
                let n = i - start;
                assert forall|k: int| 0 <= k < n implies !stop(#[trigger] tail[k]) by {
                    assert(tail[k] == chars@[start + k]);
                }
                lemma_run_len_is(tail, stop, n);
                assert(tail.take(n) =~= word@);
                assert(tail.skip(n) =~= chars@.skip(i as int));
                let before = texts(tokens@);
                assert(texts(tokens@.push(word)) =~= before.push(word@));
                assert(before.push(word@) + tokens_of(chars@.skip(i as int)) =~= before + (
                seq![word@] + tokens_of(chars@.skip(i as int))));
            }
            tokens.push(word);
        }
    }
    proof {
        assert(chars@.skip(chars@.len() as int) =~= Seq::<char>::empty());
        assert(texts(tokens@) + Seq::<Seq<char>>::empty() =~= texts(tokens@));
    }
    tokens
}

/// Splits a text into its lines.
pub fn split_lines(text: &str) -> (lines: Vec<String>)
    ensures
        texts(lines@) == lines_of(text@),
{
    let chars = to_chars(text);
    let ghost stop = |c: char| c == '\n';
    let mut lines: Vec<String> = Vec::new();
    let mut start: usize = 0;
    let mut i: usize = 0;
    proof {
        assert(chars@.skip(0) =~= chars@);
        assert(texts(lines@) + lines_of(chars@) =~= lines_of(chars@));
    }
    while i < chars.len()
        invariant
            start <= i <= chars@.len(),
            chars@ == text@,
            stop == (|c: char| c == '\n'),
            forall|k: int| start <= k < i ==> chars@[k] != '\n',
            texts(lines@) + lines_of(chars@.skip(start as int)) == lines_of(chars@),
        decreases chars.len() - i,
    {
        if chars[i] == '\n' {
            let line = string_of(&chars, start, i);
            proof {
                let tail = chars@.skip(start as int);
                let n = i - start;
                assert forall|k: int| 0 <= k < n implies !stop(#[trigger] tail[k]) by {
                    assert(tail[k] == chars@[start + k]);
                }
                assert(tail[n] == chars@[i as int]);
                lemma_run_len_is(tail, stop, n);
                assert(tail.take(n) =~= line@);
                assert(tail.skip(n + 1) =~= chars@.skip(i + 1));
                let before = texts(lines@);
                assert(texts(lines@.push(line)) =~= before.push(line@));
                assert(before.push(line@) + lines_of(chars@.skip(i + 1)) =~= before + (seq![line@]
                    + lines_of(chars@.skip(i + 1))));
            }
            lines.push(line);
            start = i + 1;
        }
        i += 1;
    }
    let line = string_of(&chars, start, i);
    proof {
        let tail = chars@.skip(start as int);
        let n = i - start;
        assert forall|k: int| 0 <= k < n implies !stop(#[trigger] tail[k]) by {
            assert(tail[k] == chars@[start + k]);
        }
        lemma_run_len_is(tail, stop, n);
        assert(tail =~= line@);
        let before = texts(lines@);
        assert(texts(lines@.push(line)) =~= before.push(line@));
        assert(before.push(line@) =~= before + seq![line@]);
    }
    lines.push(line);
    lines
}

/// `n` spaces.
pub open spec fn spaces(n: nat) -> Seq<char> {
    Seq::new(n, |i: int| ' ')
}

/// `s` with `n` spaces put behind each of its line feeds.
pub open spec fn indented(s: Seq<char>, n: nat) -> Seq<char>
    decreases s.len(),
{
    if s.len() == 0 {
        Seq::empty()
    } else if s.last() == '\n' {
        indented(s.drop_last(), n).push('\n') + spaces(n)
    } else {
        indented(s.drop_last(), n).push(s.last())
    }
}

/// Indents every line of `s` but the first by `n` spaces.
pub fn indent(s: String, n: usize) -> (result: String)
    ensures
        result@ == indented(s@, n as nat),
{
    let chars = to_chars(s.as_str());
    let mut result = String::new();
    let mut i: usize = 0;
    while i < chars.len()
        invariant
            i <= chars@.len(),
            chars@ == s@,
            result@ == indented(chars@.take(i as int), n as nat),
        decreases chars.len() - i,
    {
        let c = chars[i];
        proof {
            assert(chars@.take(i + 1).drop_last() =~= chars@.take(i as int));
            assert(chars@.take(i + 1).last() == c);
        }
        result.push(c);
        if c == '\n' {
            let ghost head = result@;
            let mut k: usize = 0;
            while k < n
                invariant
                    k <= n,
                    result@ == head + spaces(k as nat),
                decreases n - k,
            {
                result.push(' ');
                assert(spaces((k + 1) as nat) =~= spaces(k as nat).push(' '));
                assert(result@ =~= head + spaces((k + 1) as nat));
                k += 1;
            }
            assert(head + spaces(0) =~= head);
        }
        i += 1;
    }
    assert(chars@.take(chars@.len() as int) =~= chars@);
    result
}

/// The character of the decimal digit `d`.
pub open spec fn digit_char(d: int) -> char {
    (0x30 + d) as char
}

/// The decimal digits of `n`, without leading zeros.
pub open spec fn digits_of(n: nat) -> Seq<char>
    decreases n,
{
    if n < 10 {
        seq![digit_char(n as int)]
    } else {
        digits_of(n / 10).push(digit_char((n % 10) as int))
    }
}

/// `n` in decimal, with a minus sign where it is negative.
pub open spec fn decimal(n: int) -> Seq<char> {
    if n < 0 {
        seq!['-'] + digits_of((-n) as nat)
    } else {
        digits_of(n as nat)
    }
}

/// Appends the decimal digits of `n`.
pub fn push_digits(s: &mut String, n: u128)
    ensures
        final(s)@ == old(s)@ + digits_of(n as nat),
    decreases n,
{
    if n >= 10 {
        push_digits(s, n / 10);
    }
    let d: u8 = (n % 10) as u8;
    let c: char = match d {
        0 => '0',
        1 => '1',
        2 => '2',
        3 => '3',
        4 => '4',
        5 => '5',
        6 => '6',
        7 => '7',
        8 => '8',
        _ => '9',
    };
    assert(c == digit_char(d as int));
    s.push(c);
    proof {
        if n >= 10 {
            assert(s@ =~= old(s)@ + digits_of((n / 10) as nat).push(c));
        } else {
            assert(s@ =~= old(s)@ + seq![c]);
        }
    }
}

/// Appends `n` in decimal.
pub fn push_decimal(s: &mut String, n: i64)
    ensures
        final(s)@ == old(s)@ + decimal(n as int),
{
    if n < 0 {
        s.push('-');
        let magnitude: u128 = (-(n as i128)) as u128;
        push_digits(s, magnitude);
        assert(s@ =~= old(s)@ + (seq!['-'] + digits_of((-n) as nat)));
    } else {
        push_digits(s, n as u128);
    }
}

} // verus!

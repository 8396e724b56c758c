//! Character and string utilities shared by the codec and the validators:
//! ASCII lowercasing, whitespace handling, tokenization, and decimal
//! number printing and parsing.

use vstd::prelude::*;

verus! {

/// The whitespace characters that separate tokens and are trimmed from
/// line ends.
pub open spec fn is_space(c: char) -> bool {
    c == ' ' || c == '\t' || c == '\r' || c == '\n'
}

/// Executable test for [`is_space`].
pub fn is_space_char(c: char) -> (r: bool)
    ensures
        r == is_space(c),
{
    c == ' ' || c == '\t' || c == '\r' || c == '\n'
}

/// ASCII lowercasing of a single character; characters outside `A..=Z`
/// are unchanged.
pub open spec fn lower_char(c: char) -> char {
    if 'A' <= c && c <= 'Z' {
        ((c as u32 + 32) as u8) as char
    } else {
        c
    }
}

/// Executable ASCII lowercasing of a single character.
pub fn lower_char_exec(c: char) -> (r: char)
    ensures
        r == lower_char(c),
{
    let x: u32 = c as u32;
    if 65 <= x && x <= 90 {
        ((x + 32) as u8) as char
    } else {
        c
    }
}

/// ASCII lowercasing of a character sequence.
pub open spec fn lower_seq(s: Seq<char>) -> Seq<char> {
    s.map_values(|c: char| lower_char(c))
}

/// Relies on `String::push`: appends the given character to the end of
/// the string.
#[verifier::external_body]
pub(crate) fn push_char(s: &mut String, c: char)
    ensures
        final(s)@ == old(s)@.push(c),
{
    s.push(c)
}

/// Builds the ASCII-lowercased copy of a string.
pub fn to_lower(s: &str) -> (r: String)
    ensures
        r@ == lower_seq(s@),
{
    let n: usize = s.unicode_len();
    let mut r = String::new();
    let mut i: usize = 0;
    while i < n
        invariant
            i <= n,
            n == s@.len(),
            r@ == lower_seq(s@.take(i as int)),
        decreases n - i,
    {
        let c = s.get_char(i);
        push_char(&mut r, lower_char_exec(c));
        proof {
            assert(lower_seq(s@.take(i + 1)) =~= lower_seq(s@.take(i as int)).push(
                lower_char(s@[i as int]),
            ));
        }
        i = i + 1;
    }
    proof {
        assert(s@.take(n as int) =~= s@);
    }
    r
}

/// The sequence with leading and trailing whitespace removed.
pub open spec fn trim_seq(s: Seq<char>) -> Seq<char>
    decreases s.len(),
{
    if s.len() == 0 {
        s
    } else if is_space(s[0]) {
        trim_seq(s.drop_first())
    } else if is_space(s.last()) {
        trim_seq(s.drop_last())
    } else {
        s
    }
}

/// Removes leading and trailing whitespace from a string.
pub fn trim(s: &str) -> (r: String)
    ensures
        r@ == trim_seq(s@),
{
    let n: usize = s.unicode_len();
    proof {
        assert(s@.skip(0) =~= s@);
    }
    let mut lo: usize = 0;
    while lo < n && is_space_char(s.get_char(lo))
        invariant
            lo <= n,
            n == s@.len(),
            trim_seq(s@) == trim_seq(s@.skip(lo as int)),
            forall|k: int| 0 <= k < lo ==> is_space(s@[k]),
        decreases n - lo,
    {
        proof {
            assert(s@.skip(lo as int).drop_first() =~= s@.skip(lo + 1));
        }
        lo = lo + 1;
    }
    proof {
        assert(s@.skip(lo as int).take(n - lo) =~= s@.skip(lo as int));
    }
    let mut hi: usize = n;
    while hi > lo && is_space_char(s.get_char(hi - 1))
        invariant
            lo <= hi <= n,
            n == s@.len(),
            lo == n || !is_space(s@[lo as int]),
            trim_seq(s@) == trim_seq(s@.skip(lo as int).take(hi - lo)),
        decreases hi,
    {
        proof {
            let cur = s@.skip(lo as int).take(hi - lo);
            assert(cur.len() > 0);
            assert(cur.last() == s@[hi - 1]);
            if cur.len() > 0 && !is_space(cur[0]) {
                assert(trim_seq(cur) == trim_seq(cur.drop_last()));
            }
            assert(cur.drop_last() =~= s@.skip(lo as int).take(hi - 1 - lo));
        }
        hi = hi - 1;
    }
    let mid = s.substring_char(lo, hi);
    proof {
        let cur = s@.skip(lo as int).take(hi - lo);
        if cur.len() > 0 {
            assert(!is_space(cur[0]));
            assert(!is_space(cur.last()));
        }
        assert(trim_seq(cur) == cur);
        assert(cur =~= s@.subrange(lo as int, hi as int));
    }
    String::from_str(mid)
}

/// Length of the maximal whitespace-free prefix of `s`.
pub open spec fn word_len(s: Seq<char>) -> int
    decreases s.len(),
{
    if s.len() == 0 || is_space(s[0]) {
        0
    } else {
        1 + word_len(s.drop_first())
    }
}

/// `word_len(s)` is the unique boundary: every character before it is
/// not whitespace, and the character at it (if any) is whitespace.
pub proof fn lemma_word_len(s: Seq<char>)
    ensures
        0 <= word_len(s) <= s.len(),
        forall|k: int| 0 <= k < word_len(s) ==> !is_space(s[k]),
        word_len(s) < s.len() ==> is_space(s[word_len(s)]),
    decreases s.len(),
{
    if s.len() == 0 || is_space(s[0]) {
    } else {
        lemma_word_len(s.drop_first());
        assert(forall|k: int|
            1 <= k < word_len(s) ==> s[k] == s.drop_first()[k - 1] && !is_space(
                s.drop_first()[k - 1],
            ));
    }
}

/// The whitespace-separated tokens of `s`, in order.
pub open spec fn tokens(s: Seq<char>) -> Seq<Seq<char>>
    decreases s.len(),
    via tokens_decreases
{
    if s.len() == 0 {
        Seq::empty()
    } else if is_space(s[0]) {
        tokens(s.drop_first())
    } else {
        seq![s.take(word_len(s))] + tokens(s.skip(word_len(s)))
    }
}

#[via_fn]
proof fn tokens_decreases(s: Seq<char>) {
    if s.len() > 0 && !is_space(s[0]) {
        lemma_word_len(s);
    }
}

/// A whitespace character at the front does not change the tokens.
pub proof fn lemma_tokens_space(s: Seq<char>)
    requires
        s.len() > 0,
        is_space(s[0]),
    ensures
        tokens(s) == tokens(s.drop_first()),
{
}

/// If the first `w` characters of `s` are not whitespace and the
/// character after them (if any) is, the first token of `s` is exactly
/// that prefix.
pub proof fn lemma_tokens_word(s: Seq<char>, w: int)
    requires
        0 < w <= s.len(),
        forall|k: int| 0 <= k < w ==> !is_space(s[k]),
        w < s.len() ==> is_space(s[w]),
    ensures
        word_len(s) == w,
        tokens(s) == seq![s.take(w)] + tokens(s.skip(w)),
    decreases w,
{
    assert(!is_space(s[0]));
    if w == 1 {
        if s.len() > 1 {
            assert(s.drop_first()[0] == s[1]);
            assert(is_space(s[1]));
        }
        assert(word_len(s.drop_first()) == 0);
        assert(word_len(s) == 1);
    } else {
        assert(forall|k: int| 0 <= k < w - 1 ==> s.drop_first()[k] == s[k + 1] && !is_space(
            s[k + 1],
        ));
        lemma_tokens_word(s.drop_first(), w - 1);
        assert(word_len(s) == w);
    }
}

/// Every token is non-empty and free of whitespace.
pub proof fn lemma_tokens_clean(s: Seq<char>)
    ensures
        forall|t: int|
            0 <= t < tokens(s).len() ==> #[trigger] tokens(s)[t].len() > 0 && (forall|k: int|
                0 <= k < tokens(s)[t].len() ==> !is_space(tokens(s)[t][k])),
    decreases s.len(),
{
    if s.len() == 0 {
    } else if is_space(s[0]) {
        lemma_tokens_clean(s.drop_first());
        assert forall|t: int|
            0 <= t < tokens(s).len() implies #[trigger] tokens(s)[t].len() > 0 && (forall|k: int|
            0 <= k < tokens(s)[t].len() ==> !is_space(tokens(s)[t][k])) by {
            assert(tokens(s)[t] == tokens(s.drop_first())[t]);
        }
    } else {
        lemma_word_len(s);
        lemma_tokens_clean(s.skip(word_len(s)));
        let w = word_len(s);
        assert(w > 0);
        assert forall|t: int|
            0 <= t < tokens(s).len() implies #[trigger] tokens(s)[t].len() > 0 && (forall|k: int|
            0 <= k < tokens(s)[t].len() ==> !is_space(tokens(s)[t][k])) by {
            if t == 0 {
                assert(tokens(s)[0] == s.take(w));
                assert(forall|k: int| 0 <= k < s.take(w).len() ==> !is_space(s.take(w)[k]));
            } else {
                assert(tokens(s)[t] == tokens(s.skip(w))[t - 1]);
            }
        }
    }
}

/// Splits a string into its whitespace-separated tokens.
pub fn split_tokens(s: &str) -> (r: Vec<String>)
    ensures
        r.deep_view() == tokens(s@),
{
    let n: usize = s.unicode_len();
    let mut r: Vec<String> = Vec::new();
    let mut i: usize = 0;
    proof {
        assert(s@.skip(0) =~= s@);
        assert(r.deep_view() + tokens(s@) =~= tokens(s@));
    }
    while i < n
        invariant
            i <= n,
            n == s@.len(),
            r.deep_view() + tokens(s@.skip(i as int)) =~= tokens(s@),
        decreases n - i,
    {
        let c = s.get_char(i);
        if is_space_char(c) {
            proof {
                let rest = s@.skip(i as int);
                lemma_tokens_space(rest);
                assert(rest.drop_first() =~= s@.skip(i + 1));
            }
            i = i + 1;
        } else {
            let start = i;
            let mut j = i + 1;
            while j < n && !is_space_char(s.get_char(j))
                invariant
                    start < j <= n,
                    n == s@.len(),
                    forall|k: int| start <= k < j ==> !is_space(s@[k]),
                decreases n - j,
            {
                j = j + 1;
            }
            let tok = s.substring_char(start, j);
            let ghost prev = r.deep_view();
            r.push(String::from_str(tok));
            proof {
                let rest = s@.skip(start as int);
                let w = (j - start) as int;
                assert(forall|k: int| 0 <= k < w ==> rest[k] == s@[start + k] && !is_space(
                    s@[start + k],
                ));
                assert(w < rest.len() ==> is_space(rest[w]));
                lemma_tokens_word(rest, w);
                assert(rest.take(w) =~= s@.subrange(start as int, j as int));
                assert(rest.skip(w) =~= s@.skip(j as int));
                assert(r.deep_view() =~= prev.push(tok@));
                assert(r.deep_view() + tokens(s@.skip(j as int)) =~= tokens(s@));
            }
            i = j;
        }
    }
    proof {
        assert(tokens(s@.skip(n as int)) =~= Seq::<Seq<char>>::empty());
        assert(r.deep_view() + tokens(s@.skip(n as int)) =~= r.deep_view());
    }
    r
}

/// A stream of lines as one text: every line followed by a newline.
pub open spec fn join_lines_spec(lines: Seq<Seq<char>>) -> Seq<char>
    decreases lines.len(),
{
    if lines.len() == 0 {
        Seq::empty()
    } else {
        lines[0] + seq!['\n'] + join_lines_spec(lines.drop_first())
    }
}

/// Joins lines into one text, terminating each with a newline.
pub fn join_lines(lines: &Vec<String>) -> (r: String)
    ensures
        r@ == join_lines_spec(lines.deep_view()),
{
    let ghost ld = lines.deep_view();
    let mut r = String::new();
    let mut i: usize = 0;
    proof {
        assert(ld.skip(0) =~= ld);
        assert(r@ + join_lines_spec(ld.skip(0)) =~= join_lines_spec(ld));
    }
    while i < lines.len()
        invariant
            i <= lines.len(),
            ld == lines.deep_view(),
            ld.len() == lines.len(),
            r@ + join_lines_spec(ld.skip(i as int)) == join_lines_spec(ld),
        decreases lines.len() - i,
    {
        r.append(lines[i].as_str());
        push_char(&mut r, '\n');
        proof {
            assert(ld.skip(i as int).drop_first() =~= ld.skip(i + 1));
            assert(ld.skip(i as int)[0] == ld[i as int]);
            assert(r@ + join_lines_spec(ld.skip(i + 1)) =~= (r@ + join_lines_spec(ld.skip(i + 1))));
            assert(r@ + join_lines_spec(ld.skip(i + 1)) =~= join_lines_spec(ld));
        }
        i = i + 1;
    }
    proof {
        assert(join_lines_spec(ld.skip(ld.len() as int)) =~= Seq::<char>::empty());
        assert(r@ + join_lines_spec(ld.skip(ld.len() as int)) =~= r@);
    }
    r
}

/// Number of characters before the first newline (or all of them).
pub open spec fn line_len(s: Seq<char>) -> int
    decreases s.len(),
{
    if s.len() == 0 || s[0] == '\n' {
        0
    } else {
        1 + line_len(s.drop_first())
    }
}

/// `line_len(s)` is the unique boundary: no newline before it, and a
/// newline at it when it is not the end.
pub proof fn lemma_line_len(s: Seq<char>)
    ensures
        0 <= line_len(s) <= s.len(),
        forall|k: int| 0 <= k < line_len(s) ==> s[k] != '\n',
        line_len(s) < s.len() ==> s[line_len(s)] == '\n',
    decreases s.len(),
{
    if s.len() == 0 || s[0] == '\n' {
    } else {
        lemma_line_len(s.drop_first());
        assert(forall|k: int|
            1 <= k < line_len(s) ==> s[k] == s.drop_first()[k - 1] && s.drop_first()[k - 1]
                != '\n');
    }
}

/// The lines of a text: split at each newline; a final fragment
/// without a terminating newline still counts as a line.
pub open spec fn split_lines_spec(s: Seq<char>) -> Seq<Seq<char>>
    decreases s.len(),
    via split_lines_decreases
{
    if s.len() == 0 {
        Seq::empty()
    } else {
        let k = line_len(s);
        if k == s.len() {
            seq![s]
        } else {
            seq![s.take(k)] + split_lines_spec(s.skip(k + 1))
        }
    }
}

#[via_fn]
proof fn split_lines_decreases(s: Seq<char>) {
    if s.len() > 0 {
        lemma_line_len(s);
    }
}

/// Splits a text into its lines.
pub fn split_lines(s: &str) -> (r: Vec<String>)
    ensures
        r.deep_view() == split_lines_spec(s@),
{
    let n: usize = s.unicode_len();
    let mut r: Vec<String> = Vec::new();
    let mut i: usize = 0;
    proof {
        assert(s@.skip(0) =~= s@);
        assert(r.deep_view() + split_lines_spec(s@) =~= split_lines_spec(s@));
    }
    while i < n
        invariant
            i <= n,
            n == s@.len(),
            r.deep_view() + split_lines_spec(s@.skip(i as int)) == split_lines_spec(s@),
        decreases n - i,
    {
        let start = i;
        let mut j = i;
        while j < n && s.get_char(j) != '\n'
            invariant
                start <= j <= n,
                n == s@.len(),
                forall|k: int| start <= k < j ==> s@[k] != '\n',
            decreases n - j,
        {
            j = j + 1;
        }
        let line = s.substring_char(start, j);
        let ghost prev = r.deep_view();
        r.push(String::from_str(line));
        proof {
            let rest = s@.skip(start as int);
            let w = (j - start) as int;
            assert(forall|k: int| 0 <= k < w ==> rest[k] == s@[start + k] && s@[start + k] != '\n');
            lemma_line_len(rest);
            assert(w < rest.len() ==> rest[w] == s@[j as int]);
            assert(line_len(rest) == w) by {
                if line_len(rest) < w {
                    assert(rest[line_len(rest)] == '\n');
                }
                if line_len(rest) > w {
                    assert(rest[w] != '\n');
                }
            }
            assert(r.deep_view() =~= prev.push(line@));
            if j < n {
                assert(rest.take(w) =~= s@.subrange(start as int, j as int));
                assert(rest.skip(w + 1) =~= s@.skip(j + 1));
                assert(split_lines_spec(rest) == seq![rest.take(w)] + split_lines_spec(
                    rest.skip(w + 1),
                ));
                assert(r.deep_view() + split_lines_spec(s@.skip(j + 1)) =~= split_lines_spec(s@));
            } else {
                assert(rest =~= s@.subrange(start as int, j as int));
                assert(split_lines_spec(rest) == seq![rest]);
                assert(s@.skip(n as int) =~= Seq::<char>::empty());
                assert(r.deep_view() + split_lines_spec(s@.skip(n as int)) =~= split_lines_spec(
                    s@,
                ));
            }
        }
        if j < n {
            i = j + 1;
        } else {
            i = n;
        }
    }
    proof {
        assert(split_lines_spec(s@.skip(n as int)) =~= Seq::<Seq<char>>::empty());
        assert(r.deep_view() + split_lines_spec(s@.skip(n as int)) =~= r.deep_view());
    }
    r
}

/// Law: splitting a joined stream of newline-free lines gives back
/// exactly those lines.
pub proof fn lemma_lines_round_trip(lines: Seq<Seq<char>>)
    requires
        forall|i: int|
            0 <= i < lines.len() ==> forall|k: int|
                0 <= k < lines[i].len() ==> (#[trigger] lines[i])[k] != '\n',
    ensures
        split_lines_spec(join_lines_spec(lines)) == lines,
    decreases lines.len(),
{
    if lines.len() == 0 {
        assert(split_lines_spec(join_lines_spec(lines)) =~= lines);
    } else {
        let head = lines[0];
        let rest = lines.drop_first();
        assert(forall|i: int|
            0 <= i < rest.len() ==> rest[i] == lines[i + 1] && (forall|k: int|
                0 <= k < rest[i].len() ==> rest[i][k] != '\n'));
        lemma_lines_round_trip(rest);
        let s = join_lines_spec(lines);
        let w = head.len() as int;
        assert(s =~= head + seq!['\n'] + join_lines_spec(rest));
        assert(forall|k: int| 0 <= k < w ==> s[k] == head[k] && s[k] != '\n');
        assert(s[w] == '\n');
        lemma_line_len(s);
        assert(line_len(s) == w) by {
            if line_len(s) < w {
                assert(s[line_len(s)] == '\n');
            }
            if line_len(s) > w {
                assert(s[w] != '\n');
            }
        }
        assert(s.len() > 0);
        assert(w < s.len());
        assert(s.take(w) =~= head);
        assert(s.skip(w + 1) =~= join_lines_spec(rest));
        assert(split_lines_spec(s) == seq![head] + split_lines_spec(join_lines_spec(rest)));
        assert(seq![head] + rest =~= lines);
    }
}

/// Decimal digit characters.
pub open spec fn is_digit(c: char) -> bool {
    '0' <= c && c <= '9'
}

/// Numeric value of a digit character.
pub open spec fn digit_val(c: char) -> int {
    c as int - '0' as int
}

/// Whether every character of `s` is a decimal digit.
pub open spec fn all_digits(s: Seq<char>) -> bool {
    forall|k: int| 0 <= k < s.len() ==> is_digit(s[k])
}

/// Value of a digit string read in base ten.
pub open spec fn dec_value(s: Seq<char>) -> int
    decreases s.len(),
{
    if s.len() == 0 {
        0
    } else {
        dec_value(s.drop_last()) * 10 + digit_val(s.last())
    }
}

/// A digit string never has a negative value.
pub proof fn lemma_dec_value_nonneg(s: Seq<char>)
    requires
        all_digits(s),
    ensures
        dec_value(s) >= 0,
    decreases s.len(),
{
    if s.len() > 0 {
        assert(all_digits(s.drop_last()));
        lemma_dec_value_nonneg(s.drop_last());
    }
}

/// A prefix of a digit string is worth no more than the whole string.
pub proof fn lemma_dec_value_prefix(s: Seq<char>, i: int)
    requires
        all_digits(s),
        0 <= i <= s.len(),
    ensures
        dec_value(s.take(i)) <= dec_value(s),
    decreases s.len() - i,
{
    if i < s.len() {
        lemma_dec_value_prefix(s, i + 1);
        assert(s.take(i + 1).drop_last() =~= s.take(i));
        assert(all_digits(s.take(i)));
        lemma_dec_value_nonneg(s.take(i));
        assert(dec_value(s.take(i + 1)) == dec_value(s.take(i)) * 10 + digit_val(s[i]));
    } else {
        assert(s.take(i) =~= s);
    }
}

/// What it means for a string to denote a `u32`: non-empty, all digits,
/// and small enough.
pub open spec fn parse_u32_spec(s: Seq<char>) -> Option<u32> {
    if s.len() > 0 && all_digits(s) && dec_value(s) <= u32::MAX {
        Some(dec_value(s) as u32)
    } else {
        None
    }
}

/// Parses a non-negative decimal count, rejecting anything that is not
/// a plain digit string or does not fit in 32 bits.
pub fn parse_u32(s: &str) -> (r: Option<u32>)
    ensures
        r == parse_u32_spec(s@),
{
    let n: usize = s.unicode_len();
    if n == 0 {
        return None;
    }
    let mut acc: u64 = 0;
    let mut i: usize = 0;
    while i < n
        invariant
            i <= n,
            n == s@.len(),
            n > 0,
            all_digits(s@.take(i as int)),
            acc == dec_value(s@.take(i as int)),
            acc <= u32::MAX,
        decreases n - i,
    {
        let c = s.get_char(i);
        let x: u32 = c as u32;
        if x < 48 || x > 57 {
            assert(!is_digit(s@[i as int]));
            return None;
        }
        proof {
            assert(s@.take(i + 1).drop_last() =~= s@.take(i as int));
            assert(forall|k: int|
                0 <= k < i + 1 ==> #[trigger] s@.take(i + 1)[k] == s@.take(i as int + 1)[k]);
        }
        acc = acc * 10 + ((x - 48) as u64);
        assert(acc == dec_value(s@.take(i + 1)));
        if acc > 0xFFFF_FFFF {
            proof {
                if all_digits(s@) {
                    lemma_dec_value_prefix(s@, i + 1);
                }
            }
            return None;
        }
        i = i + 1;
    }
    proof {
        assert(s@.take(n as int) =~= s@);
    }
    Some(acc as u32)
}

/// Character for a digit value.
pub open spec fn digit_char(d: int) -> char {
    ((48 + d) as u8) as char
}

/// The canonical decimal digit string of a non-negative number.
pub open spec fn dec_digits(n: int) -> Seq<char>
    recommends
        n >= 0,
    decreases n,
{
    if n < 10 {
        seq![digit_char(n)]
    } else {
        dec_digits(n / 10).push(digit_char(n % 10))
    }
}

/// Printing a number and reading the digits back gives the number.
pub proof fn lemma_dec_digits(n: int)
    requires
        n >= 0,
    ensures
        dec_digits(n).len() >= 1,
        all_digits(dec_digits(n)),
        dec_value(dec_digits(n)) == n,
    decreases n,
{
    if n < 10 {
        let d = seq![digit_char(n)];
        assert(d.drop_last() =~= Seq::<char>::empty());
        assert(d.last() == digit_char(n));
        assert(digit_val(digit_char(n)) == n);
        assert(dec_value(d) == dec_value(Seq::<char>::empty()) * 10 + digit_val(digit_char(n)));
    } else {
        lemma_dec_digits(n / 10);
        assert(dec_digits(n).drop_last() =~= dec_digits(n / 10));
        assert(dec_value(dec_digits(n)) == dec_value(dec_digits(n / 10)) * 10 + digit_val(
            digit_char(n % 10),
        ));
    }
}

/// Prints a number as its canonical decimal digit string.
pub fn u32_to_string(n: u32) -> (r: String)
    ensures
        r@ == dec_digits(n as int),
    decreases n,
{
    if n < 10 {
        let mut s = String::new();
        push_char(&mut s, (((48 + n) as u8) as char));
        proof {
            assert(s@ =~= seq![digit_char(n as int)]);
        }
        s
    } else {
        let mut s = u32_to_string(n / 10);
        push_char(&mut s, (((48 + n % 10) as u8) as char));
        s
    }
}

/// Body of a signed decimal literal: the part after an optional sign.
pub open spec fn quantity_body(s: Seq<char>) -> Seq<char> {
    if s.len() > 0 && (s[0] == '-' || s[0] == '+') {
        s.drop_first()
    } else {
        s
    }
}

/// A quantity is a decimal literal: an optional sign, then digits with
/// at most one decimal point and at least one digit.
pub open spec fn is_quantity_token(s: Seq<char>) -> bool {
    let b = quantity_body(s);
    b.len() > 0 && (forall|k: int| 0 <= k < b.len() ==> is_digit(b[k]) || b[k] == '.') && (exists|
        k: int,
    |
        0 <= k < b.len() && is_digit(b[k])) && (forall|i: int, j: int|
        0 <= i < j < b.len() && b[i] == '.' ==> b[j] != '.')
}

/// Checks whether a string is a decimal quantity literal.
pub fn is_quantity(s: &str) -> (r: bool)
    ensures
        r == is_quantity_token(s@),
{
    let n: usize = s.unicode_len();
    let off: usize = if n > 0 {
        let c0 = s.get_char(0);
        if c0 == '-' || c0 == '+' {
            1
        } else {
            0
        }
    } else {
        0
    };
    let ghost b = quantity_body(s@);
    proof {
        assert(b =~= s@.skip(off as int));
    }
    if n == off {
        return false;
    }
    let mut seen_digit = false;
    let mut seen_dot = false;
    let mut i: usize = off;
    while i < n
        invariant
            off <= i <= n,
            n == s@.len(),
            b == quantity_body(s@),
            b == s@.skip(off as int),
            b.len() == n - off,
            forall|k: int| 0 <= k < i - off ==> is_digit(b[k]) || b[k] == '.',
            seen_digit == exists|k: int| 0 <= k < i - off && is_digit(b[k]),
            seen_dot == exists|k: int| 0 <= k < i - off && b[k] == '.',
            forall|p: int, q: int| 0 <= p < q < i - off && b[p] == '.' ==> b[q] != '.',
        decreases n - i,
    {
        let c = s.get_char(i);
        assert(b[i - off] == s@[i as int]);
        if c == '.' {
            if seen_dot {
                proof {
                    let p = choose|k: int| 0 <= k < i - off && b[k] == '.';
                    assert(0 <= p < i - off < quantity_body(s@).len());
                    assert(quantity_body(s@)[p] == '.' && quantity_body(s@)[i - off] == '.');
                    assert(!is_quantity_token(s@));
                }
                return false;
            }
            seen_dot = true;
        } else {
            let x: u32 = c as u32;
            if x < 48 || x > 57 {
                assert(0 <= i - off < quantity_body(s@).len());
                assert(!is_digit(quantity_body(s@)[i - off]) && quantity_body(s@)[i - off]
                    != '.');
                assert(!is_quantity_token(s@));
                return false;
            }
            seen_digit = true;
        }
        i = i + 1;
    }
    if !seen_digit {
        return false;
    }
    true
}

} // verus!

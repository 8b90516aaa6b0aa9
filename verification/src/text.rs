//! Text as sequences of characters: blanks, words, searching and decimals.

use vstd::prelude::*;

verus! {

/// The characters that separate words: those with the Unicode property White_Space.
pub open spec fn is_blank(c: char) -> bool {
    let u = c as u32;
    ||| 0x09 <= u <= 0x0d
    ||| u == 0x20
    ||| u == 0x85
    ||| u == 0xa0
    ||| u == 0x1680
    ||| 0x2000 <= u <= 0x200a
    ||| u == 0x2028
    ||| u == 0x2029
    ||| u == 0x202f
    ||| u == 0x205f
    ||| u == 0x3000
}

/// Whether `c` separates words.
pub fn blank(c: char) -> (r: bool)
    ensures
        r == is_blank(c),
{
    let u: u32 = c as u32;
    (0x09 <= u && u <= 0x0d) || u == 0x20 || u == 0x85 || u == 0xa0 || u == 0x1680 || (0x2000 <= u
        && u <= 0x200a) || u == 0x2028 || u == 0x2029 || u == 0x202f || u == 0x205f || u == 0x3000
}

/// The number of characters before the first blank.
pub open spec fn word_len(s: Seq<char>) -> nat
    decreases s.len(),
{
    if s.len() == 0 || is_blank(s[0]) {
        0
    } else {
        1 + word_len(s.skip(1))
    }
}

/// The maximal runs of non-blank characters, from left to right.
pub open spec fn words(s: Seq<char>) -> Seq<Seq<char>>
    decreases s.len(),
{
    if s.len() == 0 {
        seq![]
    } else if is_blank(s[0]) {
        words(s.skip(1))
    } else {
        proof {
            lemma_word_len(s);
        }
        seq![s.take(word_len(s) as int)] + words(s.skip(word_len(s) as int))
    }
}

/// A non-empty text without a blank.
pub open spec fn is_word(s: Seq<char>) -> bool {
    &&& s.len() > 0
    &&& forall|i: int| 0 <= i < s.len() ==> !is_blank(#[trigger] s[i])
}

/// A first word lies inside the text, holds no blank, and ends at a blank or at the end.
pub proof fn lemma_word_len(s: Seq<char>)
    ensures
        word_len(s) <= s.len(),
        forall|i: int| 0 <= i < word_len(s) ==> !is_blank(#[trigger] s[i]),
        word_len(s) < s.len() ==> is_blank(s[word_len(s) as int]),
    decreases s.len(),
{
    if s.len() > 0 && !is_blank(s[0]) {
        let rest = s.skip(1);
        lemma_word_len(rest);
        assert forall|i: int| 0 <= i < word_len(s) implies !is_blank(#[trigger] s[i]) by {
            if i > 0 {
                assert(rest[i - 1] == s[i]);
            }
        }
    }
}

proof fn lemma_word_len_before_blank(a: Seq<char>, c: char, b: Seq<char>)
    requires
        is_blank(c),
    ensures
        word_len(a.push(c) + b) == word_len(a),
    decreases a.len(),
{
    let s = a.push(c) + b;
    if a.len() == 0 {
        assert(s[0] == c);
    } else {
        assert(s[0] == a[0]);
        if !is_blank(a[0]) {
            assert(s.skip(1) =~= a.skip(1).push(c) + b);
            lemma_word_len_before_blank(a.skip(1), c, b);
        }
    }
}

/// Texts that a blank separates keep their words: those of the first come first, then those
/// of the second.
pub proof fn lemma_words_separated(a: Seq<char>, c: char, b: Seq<char>)
    requires
        is_blank(c),
    ensures
        words(a.push(c) + b) == words(a) + words(b),
    decreases a.len(),
{
    let s = a.push(c) + b;
    if a.len() == 0 {
        assert(s.skip(1) =~= b);
        assert(words(a) + words(b) =~= words(b));
    } else {
        assert(s[0] == a[0]);
        lemma_word_len(a);
        lemma_word_len_before_blank(a, c, b);
        let n: nat = if is_blank(a[0]) {
            1
        } else {
            word_len(a)
        };
        assert(s.skip(n as int) =~= a.skip(n as int).push(c) + b);
        assert(s.take(n as int) =~= a.take(n as int));
        lemma_words_separated(a.skip(n as int), c, b);
        assert(words(s) =~= words(a) + words(b));
    }
}

/// Every word of a text is non-empty and holds no blank.
pub proof fn lemma_words_are_words(s: Seq<char>)
    ensures
        forall|i: int| 0 <= i < words(s).len() ==> is_word(#[trigger] words(s)[i]),
    decreases s.len(),
{
    if s.len() > 0 {
        if is_blank(s[0]) {
            lemma_words_are_words(s.skip(1));
            assert(words(s) == words(s.skip(1)));
        } else {
            lemma_word_len(s);
            let n = word_len(s) as int;
            let rest = words(s.skip(n));
            lemma_words_are_words(s.skip(n));
            assert(is_word(s.take(n)));
            assert forall|i: int| 0 <= i < words(s).len() implies is_word(
                #[trigger] words(s)[i],
            ) by {
                if i > 0 {
                    assert(words(s)[i] == rest[i - 1]);
                }
            }
        }
    } else {
        assert(words(s).len() == 0);
    }
}

/// A word is the one word of itself.
pub proof fn lemma_words_of_word(s: Seq<char>)
    requires
        is_word(s),
    ensures
        words(s) == seq![s],
{
    lemma_word_len(s);
    assert(word_len(s) == s.len());
    assert(s.take(s.len() as int) =~= s);
    assert(words(s.skip(s.len() as int)) =~= seq![]);
    assert(words(s) =~= seq![s]);
}

/// The characters of `s`, in a vector.
pub fn chars_of(s: &str) -> (v: Vec<char>)
    ensures
        v@ == s@,
{
    let mut v: Vec<char> = Vec::new();
    for c in it: s.chars()
        invariant
            v@ =~= it.seq().take(it.index()),
            it.seq() == s@,
    {
        v.push(c);
    }
    v
}

/// Where the run of non-blank characters that starts at `at` ends.
fn word_end(v: &Vec<char>, at: usize) -> (end: usize)
    requires
        at <= v@.len(),
    ensures
        end == at + word_len(v@.skip(at as int)),
        end <= v@.len(),
{
    let mut end: usize = at;
    while end < v.len() && !blank(v[end])
        invariant
            at <= end <= v@.len(),
            word_len(v@.skip(at as int)) == end - at + word_len(v@.skip(end as int)),
        decreases v@.len() - end,
    {
        assert(v@.skip(end as int).skip(1) =~= v@.skip(end + 1));
        end = end + 1;
    }
    end
}

/// Splits `s` at its blanks.
pub fn split_words(s: &str) -> (r: Vec<String>)
    ensures
        r.deep_view() == words(s@),
{
    let v = chars_of(s);
    let mut r: Vec<String> = Vec::new();
    let mut at: usize = 0;
    assert(v@.skip(0) =~= v@);
    while at < v.len()
        invariant
            v@ == s@,
            at <= v@.len(),
            words(s@) == r.deep_view() + words(s@.skip(at as int)),
        decreases v@.len() - at,
    {
        let ghost rest = s@.skip(at as int);
        if blank(v[at]) {
            assert(rest.skip(1) =~= s@.skip(at + 1));
            at = at + 1;
        } else {
            let end = word_end(&v, at);
            let ghost before = r.deep_view();
            proof {
                lemma_word_len(rest);
                assert(rest.skip(1) =~= s@.skip(at + 1));
                assert(rest.skip(end - at) =~= s@.skip(end as int));
                assert(rest.take(end - at) =~= s@.subrange(at as int, end as int));
            }
            r.push(s.substring_char(at, end).to_owned());
            assert(r.deep_view() =~= before.push(s@.subrange(at as int, end as int)));
            at = end;
        }
    }
    assert(words(s@.skip(at as int)) =~= seq![]);
    r
}

/// `s` without the blanks at its start.
pub open spec fn trimmed_start(s: Seq<char>) -> Seq<char>
    decreases s.len(),
{
    if s.len() > 0 && is_blank(s[0]) {
        trimmed_start(s.skip(1))
    } else {
        s
    }
}

/// `s` without the blanks at its end.
pub open spec fn trimmed_end(s: Seq<char>) -> Seq<char>
    decreases s.len(),
{
    if s.len() > 0 && is_blank(s.last()) {
        trimmed_end(s.drop_last())
    } else {
        s
    }
}

/// `s` without the blanks at its two ends.
pub open spec fn trimmed(s: Seq<char>) -> Seq<char> {
    trimmed_end(trimmed_start(s))
}

/// Removes the blanks at both ends of `s`.
pub fn trim(s: &str) -> (r: &str)
    ensures
        r@ == trimmed(s@),
{
    let v = chars_of(s);
    let mut from: usize = 0;
    assert(v@.skip(0) =~= v@);
    while from < v.len() && blank(v[from])
        invariant
            from <= v@.len(),
            trimmed_start(v@) == trimmed_start(v@.skip(from as int)),
        decreases v@.len() - from,
    {
        assert(v@.skip(from as int).skip(1) =~= v@.skip(from + 1));
        from = from + 1;
    }
    let mut to: usize = v.len();
    assert(v@.skip(from as int) =~= v@.subrange(from as int, to as int));
    while from < to && blank(v[to - 1])
        invariant
            from <= to <= v@.len(),
            trimmed(v@) == trimmed_end(v@.subrange(from as int, to as int)),
        decreases to,
    {
        assert(v@.subrange(from as int, to as int).drop_last() =~= v@.subrange(
            from as int,
            to - 1,
        ));
        to = to - 1;
    }
    s.substring_char(from, to)
}

/// Whether `pattern` stands in `text` from position `i` on.
pub open spec fn occurs_at(text: Seq<char>, pattern: Seq<char>, i: int) -> bool {
    &&& 0 <= i <= text.len() - pattern.len()
    &&& text.subrange(i, i + pattern.len()) == pattern
}

/// Whether `pattern` stands anywhere in `text`.
pub open spec fn occurs(text: Seq<char>, pattern: Seq<char>) -> bool {
    exists|i: int| occurs_at(text, pattern, i)
}

fn found_at(text: &Vec<char>, pattern: &Vec<char>, i: usize) -> (r: bool)
    requires
        i + pattern@.len() <= text@.len(),
    ensures
        r == occurs_at(text@, pattern@, i as int),
{
    let ghost part = text@.subrange(i as int, i + pattern@.len());
    let mut k: usize = 0;
    while k < pattern.len()
        invariant
            i + pattern@.len() <= text.len(),
            part == text@.subrange(i as int, i + pattern@.len()),
            k <= pattern@.len(),
            forall|m: int| 0 <= m < k ==> part[m] == pattern@[m],
        decreases pattern@.len() - k,
    {
        if text[i + k] != pattern[k] {
            assert(part[k as int] != pattern@[k as int]);
            return false;
        }
        k = k + 1;
    }
    assert(part =~= pattern@);
    true
}

/// Whether `pattern` stands anywhere in `text`.
pub fn contains(text: &Vec<char>, pattern: &str) -> (r: bool)
    ensures
        r == occurs(text@, pattern@),
{
    let p = chars_of(pattern);
    if text.len() < p.len() {
        return false;
    }
    let last: usize = text.len() - p.len();
    let mut i: usize = 0;
    while i <= last
        invariant
            p@ == pattern@,
            last == text@.len() - p@.len(),
            i <= last + 1,
            forall|k: int| 0 <= k < i ==> !occurs_at(text@, pattern@, k),
        decreases last + 1 - i,
    {
        if found_at(text, &p, i) {
            return true;
        }
        if i == last {
            return false;
        }
        i = i + 1;
    }
    false
}

/// The decimal digit for `d`.
pub open spec fn digit(d: nat) -> char {
    (('0' as u32) + d) as char
}

/// The decimal digits of `n`, the most significant first.
pub open spec fn digits(n: nat) -> Seq<char>
    decreases n,
{
    if n < 10 {
        seq![digit(n)]
    } else {
        digits(n / 10).push(digit(n % 10))
    }
}

fn digit_text(d: u32) -> (r: &'static str)
    requires
        d < 10,
    ensures
        r@ == seq![digit(d as nat)],
{
    proof {
        reveal_strlit("0");
        reveal_strlit("1");
        reveal_strlit("2");
        reveal_strlit("3");
        reveal_strlit("4");
        reveal_strlit("5");
        reveal_strlit("6");
        reveal_strlit("7");
        reveal_strlit("8");
        reveal_strlit("9");
    }
    match d {
        0 => "0",
        1 => "1",
        2 => "2",
        3 => "3",
        4 => "4",
        5 => "5",
        6 => "6",
        7 => "7",
        8 => "8",
        _ => "9",
    }
}

/// Writes `n` in decimal.
pub fn decimal(n: u32) -> (r: String)
    ensures
        r@ == digits(n as nat),
    decreases n,
{
    let mut r = if n < 10 {
        String::new()
    } else {
        decimal(n / 10)
    };
    r.append(digit_text(n % 10));
    assert(r@ =~= digits(n as nat));
    r
}

/// Decimal digits make a word.
pub proof fn lemma_digits_are_a_word(n: nat)
    ensures
        is_word(digits(n)),
    decreases n,
{
    if n >= 10 {
        lemma_digits_are_a_word(n / 10);
    }
}

proof fn lemma_nothing_to_filter(s: Seq<char>)
    requires
        forall|i: int| 0 <= i < s.len() ==> !is_blank(#[trigger] s[i]),
    ensures
        s.filter(|c: char| !is_blank(c)) == s,
    decreases s.len(),
{
    reveal(Seq::filter);
    if s.len() > 0 {
        let rest = s.drop_last();
        assert forall|i: int| 0 <= i < rest.len() implies !is_blank(#[trigger] rest[i]) by {
            assert(rest[i] == s[i]);
        }
        lemma_nothing_to_filter(rest);
        assert(!is_blank(s[s.len() - 1]));
        assert(s =~= rest.push(s.last()));
    } else {
        assert(s.filter(|c: char| !is_blank(c)) =~= s);
    }
}

/// Splitting loses nothing but blanks: the words, one behind the other, are the text without its
/// blanks.
pub proof fn lemma_words_keep_every_character(s: Seq<char>)
    ensures
        words(s).flatten() == s.filter(|c: char| !is_blank(c)),
    decreases s.len(),
{
    let keep = |c: char| !is_blank(c);
    if s.len() == 0 {
        reveal(Seq::filter);
        assert(words(s) =~= seq![]);
        assert(words(s).flatten() =~= seq![]);
        assert(s.filter(keep) =~= seq![]);
    } else {
        lemma_word_len(s);
        let n: int = if is_blank(s[0]) {
            1
        } else {
            word_len(s) as int
        };
        assert(s =~= s.take(n) + s.skip(n));
        Seq::filter_distributes_over_add(s.take(n), s.skip(n), keep);
        lemma_words_keep_every_character(s.skip(n));
        if is_blank(s[0]) {
            assert(s.take(1).filter(keep) =~= seq![]) by {
                reveal(Seq::filter);
                assert(s.take(1).drop_last() =~= seq![]);
                assert(s.take(1).last() == s[0]);
                assert(s.take(1).drop_last().filter(keep) =~= seq![]);
            }
        } else {
            lemma_nothing_to_filter(s.take(n));
            assert(words(s).first() == s.take(n));
            assert(words(s).drop_first() =~= words(s.skip(n)));
        }
        assert(words(s).flatten() =~= s.filter(keep));
    }
}

/// Blanks alone hold no word.
pub proof fn lemma_blanks_hold_no_word(s: Seq<char>)
    requires
        forall|i: int| 0 <= i < s.len() ==> is_blank(#[trigger] s[i]),
    ensures
        words(s) == Seq::<Seq<char>>::empty(),
    decreases s.len(),
{
    if s.len() > 0 {
        let rest = s.skip(1);
        assert(is_blank(s[0]));
        assert forall|i: int| 0 <= i < rest.len() implies is_blank(#[trigger] rest[i]) by {
            assert(rest[i] == s[i + 1]);
        }
        lemma_blanks_hold_no_word(rest);
    }
    assert(words(s) =~= seq![]);
}

proof fn lemma_trimmed_start_at(s: Seq<char>) -> (from: int)
    ensures
        0 <= from <= s.len(),
        trimmed_start(s) == s.skip(from),
        forall|k: int| 0 <= k < from ==> is_blank(#[trigger] s[k]),
        from < s.len() ==> !is_blank(s[from]),
    decreases s.len(),
{
    if s.len() > 0 && is_blank(s[0]) {
        let rest = s.skip(1);
        let at = lemma_trimmed_start_at(rest);
        assert(rest.skip(at) =~= s.skip(at + 1));
        assert forall|k: int| 0 <= k < at + 1 implies is_blank(#[trigger] s[k]) by {
            if k > 0 {
                assert(rest[k - 1] == s[k]);
            }
        }
        if at < rest.len() {
            assert(rest[at] == s[at + 1]);
        }
        at + 1
    } else {
        assert(s.skip(0) =~= s);
        0
    }
}

proof fn lemma_trimmed_end_at(s: Seq<char>) -> (to: int)
    ensures
        0 <= to <= s.len(),
        trimmed_end(s) == s.take(to),
        forall|k: int| to <= k < s.len() ==> is_blank(#[trigger] s[k]),
        0 < to ==> !is_blank(s[to - 1]),
    decreases s.len(),
{
    if s.len() > 0 && is_blank(s.last()) {
        let rest = s.drop_last();
        let at = lemma_trimmed_end_at(rest);
        assert(rest.take(at) =~= s.take(at));
        assert forall|k: int| at <= k < s.len() implies is_blank(#[trigger] s[k]) by {
            if k < rest.len() {
                assert(rest[k] == s[k]);
            }
        }
        if 0 < at {
            assert(rest[at - 1] == s[at - 1]);
        }
        at
    } else {
        assert(s.take(s.len() as int) =~= s);
        s.len() as int
    }
}

/// Trimming takes away the blanks before the first and after the last other character, and
/// nothing else.
pub proof fn lemma_trimmed_is_what_the_blanks_enclose(
    before: Seq<char>,
    inner: Seq<char>,
    after: Seq<char>,
)
    requires
        forall|i: int| 0 <= i < before.len() ==> is_blank(#[trigger] before[i]),
        forall|i: int| 0 <= i < after.len() ==> is_blank(#[trigger] after[i]),
        inner.len() > 0 ==> !is_blank(inner[0]) && !is_blank(inner.last()),
    ensures
        trimmed(before + inner + after) == inner,
{
    let s = before + inner + after;
    let from = lemma_trimmed_start_at(s);
    let rest = s.skip(from);
    let to = lemma_trimmed_end_at(rest);
    let b = before.len() as int;
    let m = b + inner.len();
    if inner.len() == 0 {
        if from < s.len() {
            if from < b {
                assert(s[from] == before[from]);
            } else {
                assert(s[from] == after[from - b]);
            }
        }
        assert(rest.take(to) =~= inner);
    } else {
        assert(s[b] == inner[0]);
        assert(s[m - 1] == inner[inner.len() - 1]);
        if from < b {
            assert(s[from] == before[from]);
        }
        assert(from == b);
        if m - b < to {
            assert(rest[to - 1] == s[b + to - 1]);
            assert(s[b + to - 1] == after[b + to - 1 - m]);
        }
        if to < m - b {
            assert(is_blank(rest[m - b - 1]));
            assert(rest[m - b - 1] == s[m - 1]);
        }
        assert(rest.take(to) =~= inner);
    }
}

/// A pattern is found wherever it stands.
pub proof fn lemma_pattern_is_found(before: Seq<char>, pattern: Seq<char>, after: Seq<char>)
    ensures
        occurs(before + pattern + after, pattern),
{
    let text = before + pattern + after;
    let i = before.len() as int;
    assert(text.subrange(i, i + pattern.len()) =~= pattern);
    assert(occurs_at(text, pattern, i));
}

/// A pattern that is found does stand there, between a text before it and one after it.
pub proof fn lemma_found_pattern_stands_there(text: Seq<char>, pattern: Seq<char>)
    requires
        occurs(text, pattern),
    ensures
        exists|before: Seq<char>, after: Seq<char>| text == #[trigger] (before + pattern + after),
{
    let i = choose|i: int| occurs_at(text, pattern, i);
    let before = text.take(i);
    let after = text.skip(i + pattern.len());
    assert(text =~= before + pattern + after);
}

/// The number that decimal digits stand for.
pub open spec fn number(s: Seq<char>) -> int
    decreases s.len(),
{
    if s.len() == 0 {
        0
    } else {
        10 * number(s.drop_last()) + (s.last() as u32 - '0' as u32)
    }
}

/// Digits are read back as the number that was written, are digits throughout, and have no zero
/// in front.
pub proof fn lemma_digits_are_read_back(n: nat)
    ensures
        number(digits(n)) == n,
        forall|i: int| 0 <= i < digits(n).len() ==> '0' <= #[trigger] digits(n)[i] <= '9',
        n > 0 ==> digits(n)[0] != '0',
        n == 0 ==> digits(n) == seq!['0'],
    decreases n,
{
    let s = digits(n);
    if n < 10 {
        assert(s.drop_last() =~= seq![]);
        assert(number(s.drop_last()) == 0);
    } else {
        lemma_digits_are_read_back(n / 10);
        let front = digits(n / 10);
        assert(s.drop_last() =~= front);
        lemma_digits_are_a_word(n / 10);
        assert(s[0] == front[0]);
        assert forall|i: int| 0 <= i < s.len() implies '0' <= #[trigger] s[i] <= '9' by {
            if i < front.len() {
                assert(s[i] == front[i]);
            }
        }
    }
}

/// The characters that separate words, one by one.
pub proof fn lemma_blanks_one_by_one(c: char, r: bool)
    requires
        call_ensures(blank, (c,), r),
    ensures
        r <==> {
            ||| c == '\t'
            ||| c == '\n'
            ||| c == '\u{b}'
            ||| c == '\u{c}'
            ||| c == '\r'
            ||| c == ' '
            ||| c == '\u{85}'
            ||| c == '\u{a0}'
            ||| c == '\u{1680}'
            ||| '\u{2000}' <= c <= '\u{200a}'
            ||| c == '\u{2028}'
            ||| c == '\u{2029}'
            ||| c == '\u{202f}'
            ||| c == '\u{205f}'
            ||| c == '\u{3000}'
        },
        r == is_blank(c),
{
}

/// What is written in decimal is read back, for every number.
pub proof fn lemma_decimal_is_read_back(n: u32, r: String)
    requires
        call_ensures(decimal, (n,), r),
    ensures
        number(r@) == n,
        forall|i: int| 0 <= i < r@.len() ==> '0' <= #[trigger] r@[i] <= '9',
        n > 0 ==> r@[0] != '0',
        n == 0 ==> r@ == seq!['0'],
{
    lemma_digits_are_read_back(n as nat);
}

/// Splitting a text at one more blank than another gives the words of the two texts around it,
/// and a text without blanks is its own only word.
pub proof fn lemma_split_at_a_blank(
    a: &str,
    c: char,
    b: &str,
    whole: &str,
    ra: Vec<String>,
    rb: Vec<String>,
    r: Vec<String>,
)
    requires
        is_blank(c),
        whole@ == a@.push(c) + b@,
        call_ensures(split_words, (a,), ra),
        call_ensures(split_words, (b,), rb),
        call_ensures(split_words, (whole,), r),
    ensures
        r.deep_view() == ra.deep_view() + rb.deep_view(),
        a@.len() == 0 ==> ra.deep_view().len() == 0,
        is_word(a@) ==> ra.deep_view() == seq![a@],
{
    lemma_words_separated(a@, c, b@);
    if is_word(a@) {
        lemma_words_of_word(a@);
    }
}

/// Trimming gives back what blanks were put around.
pub proof fn lemma_trim_gives_back(
    s: &str,
    before: Seq<char>,
    inner: Seq<char>,
    after: Seq<char>,
    r: &str,
)
    requires
        call_ensures(trim, (s,), r),
        s@ == before + inner + after,
        forall|i: int| 0 <= i < before.len() ==> is_blank(#[trigger] before[i]),
        forall|i: int| 0 <= i < after.len() ==> is_blank(#[trigger] after[i]),
        inner.len() > 0 ==> !is_blank(inner[0]) && !is_blank(inner.last()),
    ensures
        r@ == inner,
{
    lemma_trimmed_is_what_the_blanks_enclose(before, inner, after);
}

/// A pattern is found exactly if the text is something, the pattern, and something.
pub proof fn lemma_what_is_found(text: Vec<char>, pattern: &str, r: bool)
    requires
        call_ensures(contains, (&text, pattern), r),
    ensures
        r <==> exists|before: Seq<char>, after: Seq<char>|
            text@ == #[trigger] (before + pattern@ + after),
{
    if r {
        lemma_found_pattern_stands_there(text@, pattern@);
    }
    if exists|before: Seq<char>, after: Seq<char>|
        text@ == #[trigger] (before + pattern@ + after) {
        let (before, after) = choose|before: Seq<char>, after: Seq<char>|
            text@ == #[trigger] (before + pattern@ + after);
        lemma_pattern_is_found(before, pattern@, after);
    }
}

} // verus!

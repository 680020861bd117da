use vstd::prelude::*;

verus! {

pub open spec fn is_digit(c: char) -> bool {
    '0' <= c && c <= '9'
}

pub open spec fn all_digits(s: Seq<char>) -> bool {
    forall|i: int| 0 <= i < s.len() ==> is_digit(#[trigger] s[i])
}

/// The value of one decimal digit (zero for anything else).
pub open spec fn digit_value(c: char) -> nat {
    if is_digit(c) {
        (c as int - '0' as int) as nat
    } else {
        0
    }
}

/// The number that a run of decimal digits denotes, most significant first.
pub open spec fn digits_value(s: Seq<char>) -> nat
    decreases s.len(),
{
    if s.len() == 0 {
        0
    } else {
        digits_value(s.drop_last()) * 10 + digit_value(s.last())
    }
}

/// A non-empty run of decimal digits whose value is at most `limit`, read as a number.
pub open spec fn decimal_value(s: Seq<char>, limit: nat) -> Option<nat> {
    if s.len() > 0 && all_digits(s) && digits_value(s) <= limit {
        Some(digits_value(s))
    } else {
        None
    }
}

pub open spec fn digit_char(d: nat) -> char {
    if d == 0 {
        '0'
    } else if d == 1 {
        '1'
    } else if d == 2 {
        '2'
    } else if d == 3 {
        '3'
    } else if d == 4 {
        '4'
    } else if d == 5 {
        '5'
    } else if d == 6 {
        '6'
    } else if d == 7 {
        '7'
    } else if d == 8 {
        '8'
    } else {
        '9'
    }
}

/// The shortest decimal form of `n`.
pub open spec fn decimal_text(n: nat) -> Seq<char>
    decreases n,
{
    if n < 10 {
        seq![digit_char(n)]
    } else {
        decimal_text(n / 10).push(digit_char(n % 10))
    }
}

/// Every value of the wider reading is at least the value of any prefix.
pub proof fn lemma_digits_value_prefix(s: Seq<char>, k: int)
    requires
        0 <= k <= s.len(),
    ensures
        digits_value(s.take(k)) <= digits_value(s),
    decreases s.len() - k,
{
    if k < s.len() {
        lemma_digits_value_prefix(s, k + 1);
        assert(s.take(k + 1).drop_last() =~= s.take(k));
    } else {
        assert(s.take(k) =~= s);
    }
}

pub proof fn lemma_digit_char(d: nat)
    requires
        d < 10,
    ensures
        is_digit(digit_char(d)),
        digit_value(digit_char(d)) == d,
{
}

/// Writing a number in decimal and reading it back gives the number.
pub proof fn lemma_decimal_text(n: nat)
    ensures
        decimal_text(n).len() > 0,
        all_digits(decimal_text(n)),
        digits_value(decimal_text(n)) == n,
    decreases n,
{
    if n < 10 {
        lemma_digit_char(n);
        let t = decimal_text(n);
        assert(t.drop_last() =~= Seq::<char>::empty());
        assert(digits_value(t) == digits_value(t.drop_last()) * 10 + digit_value(t.last()));
    } else {
        lemma_decimal_text(n / 10);
        lemma_digit_char(n % 10);
        let t = decimal_text(n);
        assert(t.drop_last() =~= decimal_text(n / 10));
        assert(t.last() == digit_char(n % 10));
        assert(digits_value(t) == (n / 10) * 10 + n % 10);
    }
}

/// The separators of `str::split_whitespace`: the characters with the
/// Unicode `White_Space` property.
pub open spec fn is_space(c: char) -> bool {
    c == ' ' || c == '\t' || c == '\n' || c == '\u{0B}' || c == '\u{0C}' || c == '\r' || c
        == '\u{85}' || c == '\u{A0}' || c == '\u{1680}' || ('\u{2000}' <= c && c <= '\u{200A}')
        || c == '\u{2028}' || c == '\u{2029}' || c == '\u{202F}' || c == '\u{205F}' || c
        == '\u{3000}'
}

pub fn is_space_char(c: char) -> (r: bool)
    ensures
        r == is_space(c),
{
    c == ' ' || c == '\t' || c == '\n' || c == '\u{0B}' || c == '\u{0C}' || c == '\r' || c
        == '\u{85}' || c == '\u{A0}' || c == '\u{1680}' || ('\u{2000}' <= c && c <= '\u{200A}')
        || c == '\u{2028}' || c == '\u{2029}' || c == '\u{202F}' || c == '\u{205F}' || c
        == '\u{3000}'
}

/// The first position at or after `i` that holds a separator, or the end of `s`.
pub open spec fn word_end(s: Seq<char>, i: nat) -> nat
    decreases s.len() - i,
{
    if i >= s.len() || is_space(s[i as int]) {
        i
    } else {
        word_end(s, i + 1)
    }
}

pub proof fn lemma_word_end(s: Seq<char>, i: nat)
    ensures
        i <= word_end(s, i),
        i < s.len() ==> word_end(s, i) <= s.len(),
        i < s.len() && !is_space(s[i as int]) ==> i < word_end(s, i),
        forall|j: int| i <= j < word_end(s, i) ==> !is_space(#[trigger] s[j]),
        word_end(s, i) < s.len() ==> is_space(s[word_end(s, i) as int]),
    decreases s.len() - i,
{
    if !(i >= s.len() || is_space(s[i as int])) {
        lemma_word_end(s, i + 1);
    }
}

/// The words of `s` from position `i` on: its maximal runs of
/// non-separator characters, in order.
pub open spec fn words_from(s: Seq<char>, i: nat) -> Seq<Seq<char>>
    decreases s.len() - i,
    via words_from_decreases
{
    if i >= s.len() {
        Seq::empty()
    } else if is_space(s[i as int]) {
        words_from(s, i + 1)
    } else {
        seq![s.subrange(i as int, word_end(s, i) as int)] + words_from(s, word_end(s, i))
    }
}

#[via_fn]
proof fn words_from_decreases(s: Seq<char>, i: nat) {
    lemma_word_end(s, i);
}

/// The words of `s`, as `str::split_whitespace` yields them.
pub open spec fn words(s: Seq<char>) -> Seq<Seq<char>> {
    words_from(s, 0)
}

/// Where each word of `s` starts and ends.
pub fn word_bounds(s: &Vec<char>) -> (r: Vec<(usize, usize)>)
    ensures
        r@.len() == words(s@).len(),
        forall|k: int|
            0 <= k < r@.len() ==> {
                &&& (#[trigger] r@[k]).0 <= r@[k].1 <= s@.len()
                &&& s@.subrange(r@[k].0 as int, r@[k].1 as int) == words(s@)[k]
            },
{
    let mut r: Vec<(usize, usize)> = Vec::new();
    let ghost mut found: Seq<Seq<char>> = Seq::empty();
    let n = s.len();
    let mut i: usize = 0;
    while i < n
        invariant
            n == s@.len(),
            i <= n,
            words(s@) == found + words_from(s@, i as nat),
            r@.len() == found.len(),
            forall|k: int|
                0 <= k < r@.len() ==> {
                    &&& (#[trigger] r@[k]).0 <= r@[k].1 <= s@.len()
                    &&& s@.subrange(r@[k].0 as int, r@[k].1 as int) == found[k]
                },
        decreases n - i,
    {
        if is_space_char(s[i]) {
            i = i + 1;
        } else {
            let mut j: usize = i + 1;
            proof {
                lemma_word_end(s@, i as nat);
            }
            while j < n && !is_space_char(s[j])
                invariant
                    n == s@.len(),
                    i < j <= n,
                    !is_space(s@[i as int]),
                    word_end(s@, i as nat) == word_end(s@, j as nat),
                decreases n - j,
            {
                j = j + 1;
            }
            let ghost w = s@.subrange(i as int, j as int);
            proof {
                assert(word_end(s@, j as nat) == j);
                assert(found + words_from(s@, i as nat) =~= found.push(w) + words_from(
                    s@,
                    j as nat,
                ));
                found = found.push(w);
            }
            r.push((i, j));
            i = j;
        }
    }
    assert(found + words_from(s@, i as nat) =~= found);
    r
}

/// The first position at or after `i` that holds a space, or the end of `s`.
pub open spec fn field_end(s: Seq<char>, i: nat) -> nat
    decreases s.len() - i,
{
    if i >= s.len() || s[i as int] == ' ' {
        i
    } else {
        field_end(s, i + 1)
    }
}

pub proof fn lemma_field_end(s: Seq<char>, i: nat)
    requires
        i <= s.len(),
    ensures
        i <= field_end(s, i) <= s.len(),
        forall|j: int| i <= j < field_end(s, i) ==> #[trigger] s[j] != ' ',
        field_end(s, i) < s.len() ==> s[field_end(s, i) as int] == ' ',
    decreases s.len() - i,
{
    if !(i >= s.len() || s[i as int] == ' ') {
        lemma_field_end(s, i + 1);
    }
}

/// The fields of `s` from position `i` on, cut at every single space.
pub open spec fn fields_from(s: Seq<char>, i: nat) -> Seq<Seq<char>>
    decreases s.len() + 1 - i,
    via fields_from_decreases
{
    if i > s.len() {
        Seq::empty()
    } else {
        seq![s.subrange(i as int, field_end(s, i) as int)] + fields_from(s, field_end(s, i) + 1)
    }
}

#[via_fn]
proof fn fields_from_decreases(s: Seq<char>, i: nat) {
    if i <= s.len() {
        lemma_field_end(s, i);
    }
}

/// The fields of `s`, as `str::split(' ')` yields them.
pub open spec fn fields(s: Seq<char>) -> Seq<Seq<char>> {
    fields_from(s, 0)
}

/// Where each field of `s` starts and ends.
pub fn field_bounds(s: &Vec<char>) -> (r: Vec<(usize, usize)>)
    ensures
        r@.len() == fields(s@).len(),
        forall|k: int|
            0 <= k < r@.len() ==> {
                &&& (#[trigger] r@[k]).0 <= r@[k].1 <= s@.len()
                &&& s@.subrange(r@[k].0 as int, r@[k].1 as int) == fields(s@)[k]
            },
{
    let mut r: Vec<(usize, usize)> = Vec::new();
    let ghost mut found: Seq<Seq<char>> = Seq::empty();
    let n = s.len();
    let mut i: usize = 0;
    loop
        invariant
            n == s@.len(),
            i <= n,
            fields(s@) == found + fields_from(s@, i as nat),
            r@.len() == found.len(),
            forall|k: int|
                0 <= k < r@.len() ==> {
                    &&& (#[trigger] r@[k]).0 <= r@[k].1 <= s@.len()
                    &&& s@.subrange(r@[k].0 as int, r@[k].1 as int) == found[k]
                },
        decreases n - i,
    {
        let mut j: usize = i;
        proof {
            lemma_field_end(s@, i as nat);
        }
        while j < n && s[j] != ' '
            invariant
                n == s@.len(),
                i <= j <= n,
                field_end(s@, i as nat) == field_end(s@, j as nat),
            decreases n - j,
        {
            j = j + 1;
        }
        let ghost f = s@.subrange(i as int, j as int);
        proof {
            assert(field_end(s@, j as nat) == j);
            assert(found + fields_from(s@, i as nat) =~= found.push(f) + fields_from(
                s@,
                (j + 1) as nat,
            ));
            found = found.push(f);
        }
        r.push((i, j));
        if j == n {
            assert(fields_from(s@, (j + 1) as nat) =~= Seq::<Seq<char>>::empty());
            assert(found + fields_from(s@, (j + 1) as nat) =~= found);
            return r;
        }
        i = j + 1;
    }
}

/// The text of each line.
pub open spec fn line_texts(lines: Seq<String>) -> Seq<Seq<char>> {
    lines.map_values(|l: String| l@)
}

/// The characters of `s`, in order.
pub fn chars_of(s: &str) -> (r: Vec<char>)
    ensures
        r@ == s@,
{
    let mut r: Vec<char> = Vec::new();
    for c in it: s.chars()
        invariant
            it.seq() == s@,
            r@ == it.seq().take(it.index() as int),
    {
        r.push(c);
    }
    r
}

} // verus!

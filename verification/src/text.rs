//! Plain-text helpers: trimming, splitting, number reading and writing, over characters.
use vstd::prelude::*;
use vstd::string::*;

verus! {

/// `String::push` appends one character at the end.
pub assume_specification[ String::push ](s: &mut String, c: char)
    ensures
        final(s)@ == old(s)@.push(c),
;

/// Whether two texts hold the same characters.
pub(crate) fn text_eq(a: &str, b: &str) -> (same: bool)
    ensures
        same == (a@ == b@),
{
    let x = chars_of(a);
    let y = chars_of(b);
    if x.len() != y.len() {
        return false;
    }
    assert(x@.skip(0).take(y@.len() as int) == x@);
    matches_at(&x, 0, &y)
}

/// The views of a list of strings.
pub open spec fn views(v: Seq<String>) -> Seq<Seq<char>> {
    v.map_values(|s: String| s@)
}

/// The characters of a string, in order.
pub fn chars_of(s: &str) -> (chars: Vec<char>)
    ensures
        chars@ == s@,
{
    let mut chars: Vec<char> = Vec::new();
    for c in it: s.chars()
        invariant
            chars@ == it.seq().take(it.index()),
            it.seq() == s@,
    {
        chars.push(c);
    }
    chars
}

/// The string that holds `chars[from..to]`.
pub fn string_from(chars: &Vec<char>, from: usize, to: usize) -> (s: String)
    requires
        from <= to <= chars@.len(),
    ensures
        s@ == chars@.subrange(from as int, to as int),
{
    let mut s = String::new();
    let mut i: usize = from;
    while i < to
        invariant
            from <= i <= to <= chars@.len(),
            s@ == chars@.subrange(from as int, i as int),
        decreases to - i,
    {
        s.push(chars[i]);
        i += 1;
    }
    s
}

// ---------------------------------------------------------------------------------------------
// White space

/// The characters with Unicode's `White_Space` property.
pub open spec fn is_space(c: char) -> bool {
    let u = c as u32;
    ||| 0x09 <= u <= 0x0d
    ||| u == 0x20
    ||| u == 0x85
    ||| u == 0xa0
    ||| u == 0x1680
    ||| 0x2000 <= u <= 0x200a
    ||| u == 0x2028
    ||| u == 0x2029
    ||| u == 0x202f
    ||| u == 0x205f
    ||| u == 0x3000
}

/// Whether `c` has Unicode's `White_Space` property.
pub fn space(c: char) -> (b: bool)
    ensures
        b == is_space(c),
{
    let u: u32 = c as u32;
    (0x09 <= u && u <= 0x0d) || u == 0x20 || u == 0x85 || u == 0xa0 || u == 0x1680 || (0x2000 <= u
        && u <= 0x200a) || u == 0x2028 || u == 0x2029 || u == 0x202f || u == 0x205f || u == 0x3000
}

/// `s` without its leading white space.
pub open spec fn trim_start(s: Seq<char>) -> Seq<char>
    decreases s.len(),
{
    if s.len() > 0 && is_space(s[0]) {
        trim_start(s.drop_first())
    } else {
        s
    }
}

/// `s` without its trailing white space.
pub open spec fn trim_end(s: Seq<char>) -> Seq<char>
    decreases s.len(),
{
    if s.len() > 0 && is_space(s.last()) {
        trim_end(s.drop_last())
    } else {
        s
    }
}

/// `s` without its leading and trailing white space.
pub open spec fn trimmed(s: Seq<char>) -> Seq<char> {
    trim_end(trim_start(s))
}

/// The text without its leading and trailing white space.
pub fn trim(s: &str) -> (t: String)
    ensures
        t@ == trimmed(s@),
{
    let chars = chars_of(s);
    let n: usize = chars.len();
    let mut lo: usize = 0;
    assert(chars@.subrange(0, n as int) == s@);
    while lo < n && space(chars[lo])
        invariant
            lo <= n == chars@.len(),
            trim_start(chars@.subrange(lo as int, n as int)) == trim_start(s@),
        decreases n - lo,
    {
        assert(chars@.subrange(lo as int, n as int).drop_first() == chars@.subrange(
            lo + 1,
            n as int,
        ));
        lo += 1;
    }
    assert(trim_start(s@) == chars@.subrange(lo as int, n as int));
    let mut hi: usize = n;
    while hi > lo && space(chars[hi - 1])
        invariant
            lo <= hi <= n == chars@.len(),
            trim_end(chars@.subrange(lo as int, hi as int)) == trimmed(s@),
        decreases hi,
    {
        assert(chars@.subrange(lo as int, hi as int).drop_last() == chars@.subrange(
            lo as int,
            hi - 1,
        ));
        hi -= 1;
    }
    string_from(&chars, lo, hi)
}

/// `s` without the run of `c` at its end.
pub open spec fn trim_end_char(s: Seq<char>, c: char) -> Seq<char>
    decreases s.len(),
{
    if s.len() > 0 && s.last() == c {
        trim_end_char(s.drop_last(), c)
    } else {
        s
    }
}

/// The text without the run of `c` at its end.
pub fn trim_end_of(s: &str, c: char) -> (t: String)
    ensures
        t@ == trim_end_char(s@, c),
{
    let chars = chars_of(s);
    let mut hi: usize = chars.len();
    assert(chars@.subrange(0, hi as int) == s@);
    while hi > 0 && chars[hi - 1] == c
        invariant
            hi <= chars@.len(),
            trim_end_char(chars@.subrange(0, hi as int), c) == trim_end_char(s@, c),
        decreases hi,
    {
        assert(chars@.subrange(0, hi as int).drop_last() == chars@.subrange(0, hi - 1));
        hi -= 1;
    }
    string_from(&chars, 0, hi)
}

/// The maximal runs of characters that are not white space, in order.
pub open spec fn words_of(s: Seq<char>) -> Seq<Seq<char>>
    decreases s.len(),
{
    if s.len() == 0 {
        Seq::empty()
    } else {
        let before = words_of(s.drop_last());
        if is_space(s.last()) {
            before
        } else if s.len() >= 2 && !is_space(s[s.len() - 2]) {
            before.drop_last().push(before.last().push(s.last()))
        } else {
            before.push(seq![s.last()])
        }
    }
}

proof fn lemma_words_open(s: Seq<char>)
    requires
        s.len() > 0,
        !is_space(s.last()),
    ensures
        words_of(s).len() > 0,
    decreases s.len(),
{
    if s.len() >= 2 && !is_space(s[s.len() - 2]) {
        lemma_words_open(s.drop_last());
    }
}

/// The white-space separated words of a text.
pub fn words(s: &str) -> (w: Vec<String>)
    ensures
        views(w@) == words_of(s@),
{
    let chars = chars_of(s);
    let n: usize = chars.len();
    let mut done: Vec<String> = Vec::new();
    let mut current = String::new();
    let mut open: bool = false;
    let mut i: usize = 0;
    while i < n
        invariant
            i <= n == chars@.len(),
            chars@ == s@,
            open == (i > 0 && !is_space(chars@[i - 1])),
            open ==> words_of(chars@.take(i as int)) == views(done@).push(current@),
            !open ==> words_of(chars@.take(i as int)) == views(done@) && current@ == Seq::<
                char,
            >::empty(),
        decreases n - i,
    {
        let c = chars[i];
        assert(chars@.take(i + 1).drop_last() == chars@.take(i as int));
        if space(c) {
            if open {
                let ghost before = done@;
                done.push(current);
                assert(views(done@) == views(before).push(current@));
                current = String::new();
                open = false;
            }
        } else {
            let ghost cur = current@;
            current.push(c);
            if open {
                assert(words_of(chars@.take(i as int)).drop_last() == views(done@));
            } else {
                assert(seq![c] == cur.push(c));
            }
            open = true;
        }
        i += 1;
    }
    assert(chars@.take(n as int) == s@);
    if open {
        let ghost before = done@;
        done.push(current);
        assert(views(done@) == views(before).push(current@));
    }
    done
}

// ---------------------------------------------------------------------------------------------
// Splitting and joining

/// The pieces between occurrences of `sep`: one more than there are separators.
pub open spec fn pieces_of(s: Seq<char>, sep: char) -> Seq<Seq<char>>
    decreases s.len(),
{
    if s.len() == 0 {
        seq![Seq::empty()]
    } else {
        let before = pieces_of(s.drop_last(), sep);
        if s.last() == sep {
            before.push(Seq::empty())
        } else {
            before.drop_last().push(before.last().push(s.last()))
        }
    }
}

/// The pieces of a text between occurrences of `sep`.
pub fn split_on(s: &str, sep: char) -> (p: Vec<String>)
    ensures
        views(p@) == pieces_of(s@, sep),
{
    let chars = chars_of(s);
    let n: usize = chars.len();
    let mut done: Vec<String> = Vec::new();
    let mut current = String::new();
    let mut i: usize = 0;
    assert(views(done@).push(current@) == seq![Seq::<char>::empty()]);
    while i < n
        invariant
            i <= n == chars@.len(),
            chars@ == s@,
            pieces_of(chars@.take(i as int), sep) == views(done@).push(current@),
        decreases n - i,
    {
        let c = chars[i];
        assert(chars@.take(i + 1).drop_last() == chars@.take(i as int));
        assert(views(done@).push(current@).drop_last() == views(done@));
        if c == sep {
            let ghost before = done@;
            done.push(current);
            assert(views(done@) == views(before).push(current@));
            current = String::new();
        } else {
            current.push(c);
        }
        i += 1;
    }
    assert(chars@.take(n as int) == s@);
    let ghost before = done@;
    done.push(current);
    assert(views(done@) == views(before).push(current@));
    done
}

/// The characters before the first `c` (all of them when there is none).
pub open spec fn before_char(s: Seq<char>, c: char) -> Seq<char>
    decreases s.len(),
{
    if s.len() == 0 || s[0] == c {
        Seq::empty()
    } else {
        seq![s[0]] + before_char(s.drop_first(), c)
    }
}

proof fn lemma_before_char(s: Seq<char>, c: char, n: int)
    requires
        0 <= n <= s.len(),
        forall|i: int| 0 <= i < n ==> s[i] != c,
        n < s.len() ==> s[n] == c,
    ensures
        before_char(s, c) == s.take(n),
    decreases n,
{
    if n > 0 {
        lemma_before_char(s.drop_first(), c, n - 1);
        assert(s.take(n) == seq![s[0]] + s.drop_first().take(n - 1));
    }
}

/// The text before and the text after the first `sep`.
pub fn split_once(s: &str, sep: char) -> (r: Option<(String, String)>)
    ensures
        match r {
            Some((head, tail)) => before_char(s@, sep).len() < s@.len() && head@ == before_char(
                s@,
                sep,
            ) && tail@ == s@.skip(before_char(s@, sep).len() as int + 1),
            None => before_char(s@, sep).len() == s@.len(),
        },
{
    let chars = chars_of(s);
    let n: usize = chars.len();
    let mut i: usize = 0;
    while i < n && chars[i] != sep
        invariant
            i <= n == chars@.len(),
            forall|j: int| 0 <= j < i ==> chars@[j] != sep,
        decreases n - i,
    {
        i += 1;
    }
    proof {
        lemma_before_char(s@, sep, i as int);
    }
    if i < n {
        assert(s@.subrange(0, i as int) == s@.take(i as int));
        assert(s@.subrange(i + 1, n as int) == s@.skip(i + 1));
        Some((string_from(&chars, 0, i), string_from(&chars, i + 1, n)))
    } else {
        None
    }
}

/// The parts with `sep` between neighbours.
pub open spec fn joined(parts: Seq<Seq<char>>, sep: Seq<char>) -> Seq<char>
    decreases parts.len(),
{
    if parts.len() == 0 {
        Seq::empty()
    } else if parts.len() == 1 {
        parts[0]
    } else {
        joined(parts.drop_last(), sep) + sep + parts.last()
    }
}

/// Whether `s` begins with `p`.
pub open spec fn has_prefix(s: Seq<char>, p: Seq<char>) -> bool {
    p.len() <= s.len() && s.take(p.len() as int) == p
}

/// Whether `s` ends with `p`.
pub open spec fn has_suffix(s: Seq<char>, p: Seq<char>) -> bool {
    p.len() <= s.len() && s.skip(s.len() - p.len()) == p
}

/// Whether `chars[at..]` begins with `p`.
fn matches_at(chars: &Vec<char>, at: usize, p: &Vec<char>) -> (b: bool)
    requires
        at <= chars@.len(),
    ensures
        b == has_prefix(chars@.skip(at as int), p@),
{
    let n: usize = chars.len();
    if p.len() > n - at {
        return false;
    }
    let mut i: usize = 0;
    while i < p.len()
        invariant
            i <= p@.len(),
            at + p@.len() <= n == chars@.len(),
            forall|j: int| 0 <= j < i ==> chars@[at + j] == p@[j],
        decreases p@.len() - i,
    {
        if chars[at + i] != p[i] {
            assert(chars@.skip(at as int).take(p@.len() as int)[i as int] != p@[i as int]);
            return false;
        }
        i += 1;
    }
    assert(chars@.skip(at as int).take(p@.len() as int) == p@);
    true
}

/// Whether the text begins with `prefix`.
pub fn starts_with(s: &str, prefix: &str) -> (b: bool)
    ensures
        b == has_prefix(s@, prefix@),
{
    let chars = chars_of(s);
    let p = chars_of(prefix);
    assert(chars@.skip(0) == s@);
    matches_at(&chars, 0, &p)
}

/// The text after `prefix`, if it begins with it.
pub fn strip_prefix(s: &str, prefix: &str) -> (r: Option<String>)
    ensures
        r is Some == has_prefix(s@, prefix@),
        r matches Some(t) ==> t@ == s@.skip(prefix@.len() as int),
{
    let chars = chars_of(s);
    let p = chars_of(prefix);
    assert(chars@.skip(0) == s@);
    if matches_at(&chars, 0, &p) {
        assert(s@.subrange(p@.len() as int, s@.len() as int) == s@.skip(p@.len() as int));
        Some(string_from(&chars, p.len(), chars.len()))
    } else {
        None
    }
}

/// The text before `suffix`, if it ends with it.
pub fn strip_suffix(s: &str, suffix: &str) -> (r: Option<String>)
    ensures
        r is Some == has_suffix(s@, suffix@),
        r matches Some(t) ==> t@ == s@.take(s@.len() - suffix@.len()),
{
    let chars = chars_of(s);
    let p = chars_of(suffix);
    if p.len() > chars.len() {
        return None;
    }
    let at: usize = chars.len() - p.len();
    assert(chars@.skip(at as int).take(p@.len() as int) == chars@.skip(at as int));
    if matches_at(&chars, at, &p) {
        assert(s@.subrange(0, at as int) == s@.take(at as int));
        Some(string_from(&chars, 0, at))
    } else {
        None
    }
}

/// The first `n` characters (all of them when there are fewer).
pub open spec fn first_chars(s: Seq<char>, n: int) -> Seq<char> {
    if s.len() <= n {
        s
    } else {
        s.take(n)
    }
}

/// The first `n` characters of a text.
pub fn take_chars(s: &str, n: usize) -> (t: String)
    ensures
        t@ == first_chars(s@, n as int),
{
    let chars = chars_of(s);
    let to: usize = if chars.len() <= n {
        chars.len()
    } else {
        n
    };
    assert(s@.subrange(0, to as int) == first_chars(s@, n as int));
    string_from(&chars, 0, to)
}

/// `s` with every occurrence of `pat`, found from the left and without overlap, replaced by
/// `with`.
pub open spec fn replaced(s: Seq<char>, pat: Seq<char>, with: Seq<char>) -> Seq<char>
    decreases s.len(),
{
    if pat.len() == 0 || s.len() < pat.len() {
        s
    } else if has_prefix(s, pat) {
        with + replaced(s.skip(pat.len() as int), pat, with)
    } else {
        seq![s[0]] + replaced(s.drop_first(), pat, with)
    }
}

/// The text with every occurrence of `pat` replaced by `with`.
pub fn replace_all(s: &str, pat: &str, with: &str) -> (t: String)
    requires
        pat@.len() > 0,
    ensures
        t@ == replaced(s@, pat@, with@),
{
    let chars = chars_of(s);
    let p = chars_of(pat);
    let n: usize = chars.len();
    let mut out = String::new();
    let mut i: usize = 0;
    assert(out@ + replaced(chars@.skip(0), pat@, with@) == replaced(s@, pat@, with@)) by {
        assert(chars@.skip(0) == s@);
    }
    while i < n
        invariant
            i <= n == chars@.len(),
            p@ == pat@,
            p@.len() > 0,
            chars@ == s@,
            out@ + replaced(chars@.skip(i as int), pat@, with@) == replaced(s@, pat@, with@),
        decreases n - i,
    {
        let ghost rest = chars@.skip(i as int);
        let ghost before = out@;
        if matches_at(&chars, i, &p) {
            out.append(with);
            assert(rest.skip(p@.len() as int) == chars@.skip(i + p@.len()));
            assert(out@ + replaced(chars@.skip(i + p@.len()), pat@, with@) == before + replaced(
                rest,
                pat@,
                with@,
            ));
            i += p.len();
        } else {
            out.push(chars[i]);
            assert(rest.drop_first() == chars@.skip(i + 1));
            assert(rest == seq![rest[0]] + rest.drop_first());
            assert(out@ + replaced(chars@.skip(i + 1), pat@, with@) == before + replaced(
                rest,
                pat@,
                with@,
            ));
            i += 1;
        }
    }
    assert(chars@.skip(n as int) == Seq::<char>::empty());
    out
}

// ---------------------------------------------------------------------------------------------
// Numbers

/// Whether `c` is one of `0` to `9`.
pub open spec fn is_digit(c: char) -> bool {
    '0' <= c <= '9'
}

/// The value of a run of digits, most significant first.
pub open spec fn number(s: Seq<char>) -> nat
    decreases s.len(),
{
    if s.len() == 0 {
        0
    } else {
        number(s.drop_last()) * 10 + (s.last() as u32 - '0' as u32) as nat
    }
}

/// Whether `s` is a nonempty run of digits.
pub open spec fn all_digits(s: Seq<char>) -> bool {
    s.len() > 0 && forall|i: int| 0 <= i < s.len() ==> is_digit(#[trigger] s[i])
}

/// The `u32` that a text stands for: digits only, after an optional `+`.
pub open spec fn u32_of(s: Seq<char>) -> Option<u32> {
    let digits = if s.len() > 0 && s[0] == '+' {
        s.drop_first()
    } else {
        s
    };
    if all_digits(digits) && number(digits) <= u32::MAX {
        Some(number(digits) as u32)
    } else {
        None
    }
}

/// The `i32` that a text stands for: digits only, after an optional `+` or `-`.
pub open spec fn i32_of(s: Seq<char>) -> Option<i32> {
    if s.len() > 0 && s[0] == '-' {
        let digits = s.drop_first();
        if all_digits(digits) && number(digits) <= -(i32::MIN as int) {
            Some((-(number(digits) as int)) as i32)
        } else {
            None
        }
    } else {
        let digits = if s.len() > 0 && s[0] == '+' {
            s.drop_first()
        } else {
            s
        };
        if all_digits(digits) && number(digits) <= i32::MAX {
            Some(number(digits) as i32)
        } else {
            None
        }
    }
}

proof fn lemma_number_prefix(s: Seq<char>, i: int)
    requires
        0 <= i <= s.len(),
    ensures
        number(s.take(i)) <= number(s),
    decreases s.len(),
{
    if i < s.len() {
        assert(s.drop_last().take(i) == s.take(i));
        lemma_number_prefix(s.drop_last(), i);
    } else {
        assert(s.take(i) == s);
    }
}

/// The value of the digits `chars[from..]`, if they are all digits and it does not exceed
/// `limit`.
fn parse_digits(chars: &Vec<char>, from: usize, limit: u64) -> (r: Option<u64>)
    requires
        from <= chars@.len(),
        limit <= 0xffff_ffff,
    ensures
        ({
            let digits = chars@.skip(from as int);
            if all_digits(digits) && number(digits) <= limit {
                r == Some(number(digits) as u64)
            } else {
                r is None
            }
        }),
{
    let ghost digits = chars@.skip(from as int);
    if from == chars.len() {
        return None;
    }
    let mut value: u64 = 0;
    let mut i: usize = from;
    while i < chars.len()
        invariant
            from <= i <= chars@.len(),
            from < chars@.len(),
            limit <= 0xffff_ffff,
            digits == chars@.skip(from as int),
            value == number(digits.take(i - from)),
            value <= limit,
            forall|j: int| 0 <= j < i - from ==> is_digit(#[trigger] digits[j]),
        decreases chars@.len() - i,
    {
        let c = chars[i];
        assert(digits[i - from] == c);
        if !('0' <= c && c <= '9') {
            return None;
        }
        let d: u64 = (c as u32 - '0' as u32) as u64;
        assert(digits.take(i - from + 1).drop_last() == digits.take(i - from));
        value = value * 10 + d;
        if value > limit {
            proof {
                lemma_number_prefix(digits, i - from + 1);
            }
            return None;
        }
        i += 1;
    }
    assert(digits.take(digits.len() as int) == digits);
    Some(value)
}

/// Reads a `u32` the way `u32`'s `FromStr` does.
pub fn parse_u32(s: &str) -> (r: Option<u32>)
    ensures
        r == u32_of(s@),
{
    let chars = chars_of(s);
    let from: usize = if chars.len() > 0 && chars[0] == '+' {
        1
    } else {
        0
    };
    assert(chars@.skip(from as int) == if from == 1 {
        s@.drop_first()
    } else {
        s@
    });
    match parse_digits(&chars, from, 0xffff_ffff) {
        Some(v) => Some(v as u32),
        None => None,
    }
}

/// Reads an `i32` the way `i32`'s `FromStr` does.
pub fn parse_i32(s: &str) -> (r: Option<i32>)
    ensures
        r == i32_of(s@),
{
    let chars = chars_of(s);
    if chars.len() > 0 && chars[0] == '-' {
        assert(chars@.skip(1) == s@.drop_first());
        match parse_digits(&chars, 1, 0x8000_0000) {
            Some(v) => Some((-(v as i64)) as i32),
            None => None,
        }
    } else {
        let from: usize = if chars.len() > 0 && chars[0] == '+' {
            1
        } else {
            0
        };
        assert(chars@.skip(from as int) == if from == 1 {
            s@.drop_first()
        } else {
            s@
        });
        match parse_digits(&chars, from, 0x7fff_ffff) {
            Some(v) => Some(v as i32),
            None => None,
        }
    }
}

/// The digit for a value below ten.
pub open spec fn digit_char(d: nat) -> char {
    ('0' as u32 + d) as char
}

/// The decimal digits of a number, without leading zeros.
pub open spec fn decimal(n: nat) -> Seq<char>
    decreases n,
{
    if n < 10 {
        seq![digit_char(n)]
    } else {
        decimal(n / 10).push(digit_char(n % 10))
    }
}

/// The decimal text of a signed number.
pub open spec fn signed_decimal(n: int) -> Seq<char> {
    if n < 0 {
        seq!['-'] + decimal((-n) as nat)
    } else {
        decimal(n as nat)
    }
}

fn digit(d: u64) -> (c: char)
    requires
        d < 10,
    ensures
        c == digit_char(d as nat),
{
    match d {
        0 => '0',
        1 => '1',
        2 => '2',
        3 => '3',
        4 => '4',
        5 => '5',
        6 => '6',
        7 => '7',
        8 => '8',
        _ => '9',
    }
}

/// Appends the decimal digits of `n`.
pub fn push_decimal(out: &mut String, n: u64)
    ensures
        final(out)@ == old(out)@ + decimal(n as nat),
    decreases n,
{
    if n >= 10 {
        push_decimal(out, n / 10);
    }
    out.push(digit(n % 10));
    assert(out@ == old(out)@ + decimal(n as nat));
}

/// Appends the decimal text of `n`.
pub fn push_signed(out: &mut String, n: i64)
    ensures
        final(out)@ == old(out)@ + signed_decimal(n as int),
{
    if n < 0 {
        out.push('-');
        let magnitude: u64 = if n == i64::MIN {
            0x8000_0000_0000_0000
        } else {
            (-n) as u64
        };
        push_decimal(out, magnitude);
        assert(out@ == old(out)@ + signed_decimal(n as int));
    } else {
        push_decimal(out, n as u64);
    }
}

/// The decimal text of `n`.
pub fn decimal_text(n: u64) -> (s: String)
    ensures
        s@ == decimal(n as nat),
{
    let mut s = String::new();
    push_decimal(&mut s, n);
    assert(s@ == decimal(n as nat));
    s
}

/// The decimal text of a signed `n`.
pub fn signed_text(n: i64) -> (s: String)
    ensures
        s@ == signed_decimal(n as int),
{
    let mut s = String::new();
    push_signed(&mut s, n);
    assert(s@ == signed_decimal(n as int));
    s
}

// ---------------------------------------------------------------------------------------------
// Laws of splitting, joining, reading and writing

/// The decimal text of a number is made of digits, and reads as that number.
pub proof fn law_decimal_reads_back(n: nat)
    ensures
        all_digits(decimal(n)),
        number(decimal(n)) == n,
    decreases n,
{
    if n < 10 {
        assert(decimal(n).drop_last() == Seq::<char>::empty());
        assert(number(decimal(n).drop_last()) == 0);
    } else {
        law_decimal_reads_back(n / 10);
        let head = decimal(n / 10);
        assert(decimal(n).drop_last() == head);
        assert forall|i: int| 0 <= i < decimal(n).len() implies is_digit(
            #[trigger] decimal(n)[i],
        ) by {
            if i < head.len() {
                assert(is_digit(head[i]));
            }
        }
    }
}

/// A `u32` is read back from its decimal text.
pub proof fn law_u32_reads_back(n: u32)
    ensures
        u32_of(decimal(n as nat)) == Some(n),
{
    law_decimal_reads_back(n as nat);
    assert(is_digit(decimal(n as nat)[0]));
}

/// An `i32` is read back from its decimal text.
pub proof fn law_i32_reads_back(n: i32)
    ensures
        i32_of(signed_decimal(n as int)) == Some(n),
{
    if n < 0 {
        law_decimal_reads_back((-n) as nat);
        assert(signed_decimal(n as int).drop_first() == decimal((-n) as nat));
    } else {
        law_decimal_reads_back(n as nat);
        assert(is_digit(decimal(n as nat)[0]));
    }
}

/// A text without white space is its own only word.
pub proof fn lemma_one_word(s: Seq<char>)
    requires
        s.len() > 0,
        forall|i: int| 0 <= i < s.len() ==> !is_space(#[trigger] s[i]),
    ensures
        words_of(s) == seq![s],
    decreases s.len(),
{
    let head = s.drop_last();
    if s.len() == 1 {
        assert(words_of(head) == Seq::<Seq<char>>::empty());
        assert(seq![s.last()] == s);
        assert(words_of(s) =~= seq![s]);
    } else {
        assert forall|i: int| 0 <= i < head.len() implies !is_space(#[trigger] head[i]) by {
            assert(head[i] == s[i]);
        }
        lemma_one_word(head);
        assert(head.push(s.last()) == s);
        assert(!is_space(s[s.len() - 2]));
        assert(words_of(s) =~= seq![s]);
    }
}

/// The words around a white-space character are those before it and those after it.
pub proof fn lemma_words_around(a: Seq<char>, c: char, b: Seq<char>)
    requires
        is_space(c),
    ensures
        words_of(a + seq![c] + b) == words_of(a) + words_of(b),
    decreases b.len(),
{
    let whole = a + seq![c] + b;
    if b.len() == 0 {
        assert(whole == a.push(c));
        assert(whole.drop_last() == a);
        assert(words_of(whole) =~= words_of(a) + words_of(b));
    } else {
        let rest = b.drop_last();
        lemma_words_around(a, c, rest);
        assert(whole.drop_last() == a + seq![c] + rest);
        assert(whole.last() == b.last());
        if b.len() >= 2 {
            assert(whole[whole.len() - 2] == b[b.len() - 2]);
            if !is_space(b.last()) && !is_space(b[b.len() - 2]) {
                lemma_words_open(rest);
                let (x, y) = (words_of(a), words_of(rest));
                assert((x + y).drop_last() == x + y.drop_last());
                assert(words_of(whole) =~= words_of(a) + words_of(b));
            } else {
                assert(words_of(whole) =~= words_of(a) + words_of(b));
            }
        } else {
            assert(whole[whole.len() - 2] == c);
            assert(rest == Seq::<char>::empty());
            assert(words_of(whole) =~= words_of(a) + words_of(b));
        }
    }
}

/// A text without `sep` is its own only piece.
pub proof fn lemma_one_piece(s: Seq<char>, sep: char)
    requires
        forall|i: int| 0 <= i < s.len() ==> #[trigger] s[i] != sep,
    ensures
        pieces_of(s, sep) == seq![s],
    decreases s.len(),
{
    if s.len() == 0 {
        assert(s =~= Seq::<char>::empty());
    } else {
        let head = s.drop_last();
        assert forall|i: int| 0 <= i < head.len() implies #[trigger] head[i] != sep by {
            assert(head[i] == s[i]);
        }
        lemma_one_piece(head, sep);
        assert(head.push(s.last()) == s);
        assert(pieces_of(s, sep) =~= seq![s]);
    }
}

/// A text without `sep` behind a separator is one more piece.
pub proof fn lemma_last_piece(a: Seq<char>, sep: char, b: Seq<char>)
    requires
        forall|i: int| 0 <= i < b.len() ==> #[trigger] b[i] != sep,
    ensures
        pieces_of(a + seq![sep] + b, sep) == pieces_of(a, sep).push(b),
    decreases b.len(),
{
    let whole = a + seq![sep] + b;
    if b.len() == 0 {
        assert(whole.drop_last() == a);
        assert(b == Seq::<char>::empty());
    } else {
        let rest = b.drop_last();
        assert forall|i: int| 0 <= i < rest.len() implies #[trigger] rest[i] != sep by {
            assert(rest[i] == b[i]);
        }
        lemma_last_piece(a, sep, rest);
        assert(whole.drop_last() == a + seq![sep] + rest);
        assert(whole.last() == b.last());
        assert(rest.push(b.last()) == b);
        assert(pieces_of(whole, sep) =~= pieces_of(a, sep).push(b));
    }
}

/// Joining parts that hold no separator, and splitting again, gives the parts back.
pub proof fn law_split_undoes_join(parts: Seq<Seq<char>>, sep: char)
    requires
        parts.len() > 0,
        forall|p: int, i: int|
            0 <= p < parts.len() && 0 <= i < parts[p].len() ==> #[trigger] parts[p][i] != sep,
    ensures
        pieces_of(joined(parts, seq![sep]), sep) == parts,
    decreases parts.len(),
{
    let last = parts[parts.len() - 1];
    assert forall|i: int| 0 <= i < last.len() implies #[trigger] last[i] != sep by {
        assert(parts[parts.len() - 1][i] != sep);
    }
    if parts.len() == 1 {
        lemma_one_piece(last, sep);
        assert(parts =~= seq![last]);
    } else {
        let rest = parts.drop_last();
        assert forall|p: int, i: int|
            0 <= p < rest.len() && 0 <= i < rest[p].len() implies #[trigger] rest[p][i] != sep by {
            assert(rest[p] == parts[p]);
            assert(parts[p][i] != sep);
        }
        law_split_undoes_join(rest, sep);
        lemma_last_piece(joined(rest, seq![sep]), sep, last);
        assert(parts =~= rest.push(last));
    }
}

/// Every character of a joined text stands in one of the parts or is the separator.
pub proof fn lemma_joined_chars(parts: Seq<Seq<char>>, sep: char, at: int)
    requires
        0 <= at < joined(parts, seq![sep]).len(),
    ensures
        joined(parts, seq![sep])[at] == sep || exists|p: int, i: int|
            0 <= p < parts.len() && 0 <= i < parts[p].len() && #[trigger] parts[p][i] == joined(
                parts,
                seq![sep],
            )[at],
    decreases parts.len(),
{
    let whole = joined(parts, seq![sep]);
    if parts.len() == 1 {
        assert(parts[0][at] == whole[at]);
    } else if parts.len() > 1 {
        let rest = parts.drop_last();
        let head = joined(rest, seq![sep]);
        let last = parts[parts.len() - 1];
        if at < head.len() {
            lemma_joined_chars(rest, sep, at);
            if head[at] != sep {
                let (p, i) = choose|p: int, i: int|
                    0 <= p < rest.len() && 0 <= i < rest[p].len() && #[trigger] rest[p][i]
                        == head[at];
                assert(parts[p][i] == whole[at]);
            }
        } else if at > head.len() {
            assert(parts[parts.len() - 1][at - head.len() - 1] == whole[at]);
        }
    }
}

/// Where `c` does not occur, nothing is cut off.
pub proof fn lemma_no_char(s: Seq<char>, c: char)
    requires
        forall|i: int| 0 <= i < s.len() ==> #[trigger] s[i] != c,
    ensures
        before_char(s, c) == s,
{
    lemma_before_char(s, c, s.len() as int);
    assert(s.take(s.len() as int) == s);
}

/// White space is taken off both ends, and nothing else: what stands between two runs of it comes
/// out whole.
pub proof fn law_trimming_keeps_what_is_between(a: Seq<char>, t: Seq<char>, b: Seq<char>)
    requires
        forall|i: int| 0 <= i < a.len() ==> is_space(#[trigger] a[i]),
        forall|i: int| 0 <= i < b.len() ==> is_space(#[trigger] b[i]),
        t.len() > 0,
        !is_space(t[0]),
        !is_space(t.last()),
    ensures
        trimmed(a + t + b) == t,
{
    lemma_trim_start_run(a, t + b);
    assert(a + t + b =~= a + (t + b));
    lemma_trim_end_run(t, b);
}

proof fn lemma_trim_start_run(a: Seq<char>, t: Seq<char>)
    requires
        forall|i: int| 0 <= i < a.len() ==> is_space(#[trigger] a[i]),
        t.len() > 0 ==> !is_space(t[0]),
    ensures
        trim_start(a + t) == t,
    decreases a.len(),
{
    if a.len() == 0 {
        assert(a + t =~= t);
    } else {
        assert(is_space(a[0]));
        let rest = a.drop_first();
        assert forall|i: int| 0 <= i < rest.len() implies is_space(#[trigger] rest[i]) by {
            assert(rest[i] == a[i + 1]);
        }
        assert((a + t).drop_first() =~= rest + t);
        assert((a + t)[0] == a[0]);
        lemma_trim_start_run(rest, t);
    }
}

proof fn lemma_trim_end_run(t: Seq<char>, b: Seq<char>)
    requires
        forall|i: int| 0 <= i < b.len() ==> is_space(#[trigger] b[i]),
        t.len() > 0 ==> !is_space(t.last()),
    ensures
        trim_end(t + b) == t,
    decreases b.len(),
{
    if b.len() == 0 {
        assert(t + b =~= t);
    } else {
        assert(is_space(b[b.len() - 1]));
        assert((t + b).drop_last() =~= t + b.drop_last());
        assert((t + b).last() == b.last());
        lemma_trim_end_run(t, b.drop_last());
    }
}

/// A text of nothing but white space is trimmed to nothing.
pub proof fn law_blank_text_is_trimmed_away(a: Seq<char>)
    requires
        forall|i: int| 0 <= i < a.len() ==> is_space(#[trigger] a[i]),
    ensures
        trimmed(a).len() == 0,
{
    lemma_trim_start_run(a, Seq::empty());
    assert(a + Seq::<char>::empty() =~= a);
}

/// What is trimmed is trimmed.
pub proof fn law_trimming_twice_is_trimming_once(s: Seq<char>)
    ensures
        trimmed(trimmed(s)) == trimmed(s),
{
    lemma_trim_start_clean(s);
    lemma_trim_end_clean(trim_start(s));
}

proof fn lemma_trim_start_clean(s: Seq<char>)
    ensures
        trim_start(s).len() > 0 ==> !is_space(trim_start(s)[0]),
    decreases s.len(),
{
    if s.len() > 0 && is_space(s[0]) {
        lemma_trim_start_clean(s.drop_first());
    }
}

proof fn lemma_trim_end_clean(s: Seq<char>)
    requires
        s.len() > 0 ==> !is_space(s[0]),
    ensures
        trim_end(s).len() > 0 ==> !is_space(trim_end(s).last()) && trim_end(s)[0] == s[0],
    decreases s.len(),
{
    if s.len() > 0 && is_space(s.last()) {
        lemma_trim_end_clean(s.drop_last());
    }
}

/// The run of a character at the end is taken off, and nothing else.
pub proof fn law_end_run_is_taken_off(t: Seq<char>, c: char, n: nat)
    requires
        t.len() > 0 ==> t.last() != c,
    ensures
        trim_end_char(t + Seq::new(n, |i: int| c), c) == t,
    decreases n,
{
    let run = Seq::new(n, |i: int| c);
    if n == 0 {
        assert(t + run =~= t);
    } else {
        law_end_run_is_taken_off(t, c, (n - 1) as nat);
        assert((t + run).drop_last() =~= t + Seq::new((n - 1) as nat, |i: int| c));
        assert((t + run).last() == c);
    }
}

/// Every occurrence is replaced, from the left: the text before the first one is kept, the
/// occurrence gives way, and the rest is treated alike. A text without one is kept whole.
pub proof fn law_occurrences_are_replaced(
    head: Seq<char>,
    tail: Seq<char>,
    pat: Seq<char>,
    with: Seq<char>,
)
    requires
        pat.len() > 0,
        forall|i: int|
            0 <= i < head.len() ==> !has_prefix(#[trigger] (head + pat + tail).skip(i), pat),
    ensures
        replaced(head + pat + tail, pat, with) == head + with + replaced(tail, pat, with),
    decreases head.len(),
{
    let s = head + pat + tail;
    if head.len() == 0 {
        assert(s.take(pat.len() as int) =~= pat);
        assert(s.skip(pat.len() as int) =~= tail);
        assert(head + with + replaced(tail, pat, with) =~= with + replaced(tail, pat, with));
    } else {
        assert(s.skip(0) =~= s);
        assert(!has_prefix(s.skip(0), pat));
        let rest = head.drop_first();
        assert(s.drop_first() =~= rest + pat + tail);
        assert forall|i: int| 0 <= i < rest.len() implies !has_prefix(
            #[trigger] (rest + pat + tail).skip(i),
            pat,
        ) by {
            assert((rest + pat + tail).skip(i) =~= s.skip(i + 1));
            assert(!has_prefix(s.skip(i + 1), pat));
        }
        law_occurrences_are_replaced(rest, tail, pat, with);
        assert(s[0] == head[0]);
        assert(seq![head[0]] + (rest + with + replaced(tail, pat, with)) =~= head + with
            + replaced(tail, pat, with));
    }
}

/// A text without the pattern comes through unchanged.
pub proof fn law_other_text_is_kept(s: Seq<char>, pat: Seq<char>, with: Seq<char>)
    requires
        forall|i: int| 0 <= i < s.len() ==> !has_prefix(#[trigger] s.skip(i), pat),
    ensures
        replaced(s, pat, with) == s,
    decreases s.len(),
{
    if pat.len() > 0 && s.len() >= pat.len() {
        assert(s.skip(0) =~= s);
        assert(!has_prefix(s.skip(0), pat));
        let rest = s.drop_first();
        assert forall|i: int| 0 <= i < rest.len() implies !has_prefix(
            #[trigger] rest.skip(i),
            pat,
        ) by {
            assert(rest.skip(i) =~= s.skip(i + 1));
            assert(!has_prefix(s.skip(i + 1), pat));
        }
        law_other_text_is_kept(rest, pat, with);
        assert(seq![s[0]] + rest =~= s);
    }
}

/// A number is read from digits alone, after one sign at most, and only where it fits.
pub proof fn law_only_digits_are_read(s: Seq<char>, i: int)
    requires
        0 <= i < s.len(),
        !('0' <= s[i] <= '9'),
        i > 0 || (s[0] != '+' && s[0] != '-'),
    ensures
        u32_of(s) is None,
        i32_of(s) is None,
{
    if s[0] == '+' || s[0] == '-' {
        assert(s.drop_first()[i - 1] == s[i]);
    }
}

/// The empty text, a bare sign and a negative count are no numbers.
pub proof fn law_no_digits_is_no_number(s: Seq<char>)
    ensures
        s.len() == 0 ==> u32_of(s) is None && i32_of(s) is None,
        s.len() == 1 && (s[0] == '+' || s[0] == '-') ==> u32_of(s) is None && i32_of(s) is None,
        s.len() > 0 && s[0] == '-' ==> u32_of(s) is None,
{
    if s.len() > 0 && s[0] == '-' {
        assert(!is_digit(s[0]));
    }
}

/// A number is written digit by digit, without leading zeros, and a negative one with its sign.
pub proof fn law_numbers_are_written_digit_by_digit(n: nat, d: nat)
    requires
        d < 10,
    ensures
        decimal(d) == seq![('0' as u32 + d) as char],
        n > 0 ==> decimal(10 * n + d) == decimal(n).push(('0' as u32 + d) as char),
        n > 0 ==> signed_decimal(-(n as int)) == seq!['-'] + decimal(n),
        signed_decimal(n as int) == decimal(n),
{
    if n > 0 {
        assert((10 * n + d) / 10 == n && (10 * n + d) % 10 == d);
    }
}

/// The first characters of a text are as many as asked for, or all of them.
pub proof fn law_first_characters(s: Seq<char>, n: int)
    requires
        n >= 0,
    ensures
        first_chars(s, n).len() == if s.len() < n {
            s.len() as int
        } else {
            n
        },
        first_chars(s, n) == s.subrange(0, first_chars(s, n).len() as int),
{
    assert(first_chars(s, n) =~= s.subrange(0, first_chars(s, n).len() as int));
}

} // verus!

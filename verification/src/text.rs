use vstd::prelude::*;

verus! {

broadcast use vstd::string::group_string_axioms;

// ---------------------------------------------------------------------------
// Specifications
// ---------------------------------------------------------------------------

/// `line` with one trailing carriage return removed, if it has one.
pub open spec fn strip_cr(line: Seq<char>) -> Seq<char> {
    if line.len() > 0 && line.last() == '\r' {
        line.drop_last()
    } else {
        line
    }
}

/// The lines of `s` when `cur` has already been read from the current line:
/// a line ends at `'\n'` (a `'\r'` just before it is dropped), and the last
/// line needs no terminator.
pub open spec fn lines_from(s: Seq<char>, cur: Seq<char>) -> Seq<Seq<char>>
    decreases s.len(),
{
    if s.len() == 0 {
        if cur.len() == 0 {
            seq![]
        } else {
            seq![cur]
        }
    } else if s[0] == '\n' {
        seq![strip_cr(cur)] + lines_from(s.drop_first(), seq![])
    } else {
        lines_from(s.drop_first(), cur.push(s[0]))
    }
}

/// The lines of a text, as `str::lines` yields them.
pub open spec fn lines(s: Seq<char>) -> Seq<Seq<char>> {
    lines_from(s, seq![])
}

/// The pieces of `ls` joined by single newlines.
pub open spec fn join_lines(ls: Seq<Seq<char>>) -> Seq<char>
    decreases ls.len(),
{
    if ls.len() == 0 {
        seq![]
    } else if ls.len() == 1 {
        ls[0]
    } else {
        join_lines(ls.drop_last()) + seq!['\n'] + ls.last()
    }
}

/// The character views of a sequence of strings.
pub open spec fn views(v: Seq<String>) -> Seq<Seq<char>> {
    v.map_values(|s: String| s@)
}

/// `needle` occurs in `hay` at index `i`.
pub open spec fn occurs_at(hay: Seq<char>, needle: Seq<char>, i: int) -> bool {
    0 <= i && i + needle.len() <= hay.len() && hay.subrange(i, i + needle.len()) == needle
}

/// `needle` occurs somewhere in `hay`.
pub open spec fn contains(hay: Seq<char>, needle: Seq<char>) -> bool {
    exists|i: int| occurs_at(hay, needle, i)
}

/// `hay` begins with `prefix`.
pub open spec fn starts_with(hay: Seq<char>, prefix: Seq<char>) -> bool {
    prefix.len() <= hay.len() && hay.take(prefix.len() as int) == prefix
}

/// `hay` ends with `suffix`.
pub open spec fn ends_with(hay: Seq<char>, suffix: Seq<char>) -> bool {
    suffix.len() <= hay.len() && hay.skip(hay.len() - suffix.len()) == suffix
}

/// The index of the first occurrence of `needle` in `hay`, if any.
pub open spec fn first_occurrence(hay: Seq<char>, needle: Seq<char>) -> Option<int> {
    if contains(hay, needle) {
        Some(choose|i: int| occurs_at(hay, needle, i) && forall|j: int| 0 <= j < i ==> !occurs_at(hay, needle, j))
    } else {
        None
    }
}

// ---------------------------------------------------------------------------
// Conversions
// ---------------------------------------------------------------------------

/// `String::push`: appends one character.
#[verifier::external_body]
pub(crate) fn push_char(s: &mut String, c: char)
    ensures
        final(s)@ == old(s)@.push(c),
{
    s.push(c);
}

/// The characters of `s`, one by one.
pub fn to_chars(s: &str) -> (r: Vec<char>)
    ensures
        r@ == s@,
{
    let mut r: Vec<char> = Vec::new();
    for c in it: s.chars()
        invariant
            it.seq() == s@,
            r@ == it.seq().take(it.index() as int),
    {
        r.push(c);
    }
    r
}

/// A string made of the characters `cs[from..to]`.
pub fn string_of(cs: &[char], from: usize, to: usize) -> (r: String)
    requires
        from <= to <= cs@.len(),
    ensures
        r@ == cs@.subrange(from as int, to as int),
{
    let mut r = String::new();
    let mut i = from;
    while i < to
        invariant
            from <= i <= to <= cs@.len(),
            r@ == cs@.subrange(from as int, i as int),
        decreases to - i,
    {
        push_char(&mut r, cs[i]);
        i = i + 1;
        assert(r@ =~= cs@.subrange(from as int, i as int));
    }
    r
}

// ---------------------------------------------------------------------------
// Lines
// ---------------------------------------------------------------------------

proof fn lemma_lines_from_step(s: Seq<char>, i: int, cur: Seq<char>)
    requires
        0 <= i < s.len(),
    ensures
        s[i] == '\n' ==> lines_from(s.skip(i), cur) == seq![strip_cr(cur)] + lines_from(s.skip(i + 1), seq![]),
        s[i] != '\n' ==> lines_from(s.skip(i), cur) == lines_from(s.skip(i + 1), cur.push(s[i])),
{
    assert(s.skip(i).drop_first() =~= s.skip(i + 1));
}

/// The lines of `s`, as `str::lines` yields them.
pub fn split_lines(s: &str) -> (r: Vec<String>)
    ensures
        views(r@) == lines(s@),
{
    let cs = to_chars(s);
    let mut r: Vec<String> = Vec::new();
    let mut start: usize = 0;
    let mut i: usize = 0;
    proof {
        assert(cs@.skip(0) =~= cs@);
        assert(cs@.subrange(0, 0) =~= Seq::<char>::empty());
        assert(views(r@) + lines(s@) =~= lines(s@));
    }
    while i < cs.len()
        invariant
            cs@ == s@,
            start <= i <= cs@.len(),
            views(r@) + lines_from(cs@.skip(i as int), cs@.subrange(start as int, i as int)) == lines(s@),
        decreases cs.len() - i,
    {
        proof {
            lemma_lines_from_step(cs@, i as int, cs@.subrange(start as int, i as int));
        }
        if cs[i] == '\n' {
            let end = if i > start && cs[i - 1] == '\r' { i - 1 } else { i };
            let line = string_of(cs.as_slice(), start, end);
            proof {
                let cur = cs@.subrange(start as int, i as int);
                assert(line@ == strip_cr(cur)) by {
                    if i > start && cs@[i - 1] == '\r' {
                        assert(cur.drop_last() =~= cs@.subrange(start as int, end as int));
                    }
                }
                assert(views(r@.push(line)) =~= views(r@) + seq![line@]);
                assert(cs@.subrange((i + 1) as int, (i + 1) as int) =~= Seq::<char>::empty());
            }
            r.push(line);
            i = i + 1;
            start = i;
        } else {
            proof {
                assert(cs@.subrange(start as int, i as int).push(cs@[i as int]) =~= cs@.subrange(start as int, i + 1));
            }
            i = i + 1;
        }
    }
    if start < i {
        let line = string_of(cs.as_slice(), start, i);
        proof {
            assert(views(r@.push(line)) =~= views(r@) + seq![line@]);
        }
        r.push(line);
    } else {
        proof {
            assert(views(r@) + seq![] =~= views(r@));
        }
    }
    r
}

/// The lines `ls[from..to]` joined by newlines.
pub fn join_range(ls: &Vec<String>, from: usize, to: usize) -> (r: String)
    requires
        from <= to <= ls@.len(),
    ensures
        r@ == join_lines(views(ls@).subrange(from as int, to as int)),
{
    let mut r = String::new();
    let mut i = from;
    while i < to
        invariant
            from <= i <= to <= ls@.len(),
            r@ == join_lines(views(ls@).subrange(from as int, i as int)),
        decreases to - i,
    {
        let ghost prev = views(ls@).subrange(from as int, i as int);
        let ghost next = views(ls@).subrange(from as int, i + 1);
        assert(next.drop_last() =~= prev);
        if i > from {
            r.append("\n");
            proof { reveal_strlit("\n"); }
        } else {
            assert(prev.len() == 0);
        }
        r.append(ls[i].as_str());
        assert(r@ =~= join_lines(next));
        i = i + 1;
    }
    r
}

/// All of `ls` joined by newlines.
pub fn join(ls: &Vec<String>) -> (r: String)
    ensures
        r@ == join_lines(views(ls@)),
{
    let r = join_range(ls, 0, ls.len());
    assert(views(ls@).subrange(0, ls@.len() as int) =~= views(ls@));
    r
}


// ---------------------------------------------------------------------------
// Searching
// ---------------------------------------------------------------------------

/// Whether `needle` occurs in `hay` at index `i`.
pub fn matches_at(hay: &[char], needle: &[char], i: usize) -> (r: bool)
    ensures
        r == occurs_at(hay@, needle@, i as int),
{
    if i > hay.len() || needle.len() > hay.len() - i {
        return false;
    }
    let mut k: usize = 0;
    while k < needle.len()
        invariant
            i + needle@.len() <= hay@.len(),
            hay@.len() == hay.len(),
            k <= needle@.len(),
            forall|m: int| 0 <= m < k ==> hay@[i + m] == needle@[m],
        decreases needle.len() - k,
    {
        if hay[i + k] != needle[k] {
            assert(hay@.subrange(i as int, i + needle@.len())[k as int] != needle@[k as int]);
            return false;
        }
        k = k + 1;
    }
    assert(hay@.subrange(i as int, i + needle@.len()) =~= needle@);
    true
}

/// The first index at or after `from` where `needle` occurs in `hay`.
pub fn find_from(hay: &[char], needle: &[char], from: usize) -> (r: Option<usize>)
    ensures
        match r {
            Some(i) => from <= i && occurs_at(hay@, needle@, i as int) && forall|j: int|
                from <= j < i ==> !occurs_at(hay@, needle@, j),
            None => forall|j: int| from <= j ==> !occurs_at(hay@, needle@, j),
        },
{
    if from > hay.len() {
        return None;
    }
    let mut i = from;
    while i < hay.len()
        invariant
            from <= i <= hay@.len(),
            forall|j: int| from <= j < i ==> !occurs_at(hay@, needle@, j),
        decreases hay.len() - i,
    {
        if matches_at(hay, needle, i) {
            return Some(i);
        }
        i = i + 1;
    }
    if matches_at(hay, needle, i) {
        return Some(i);
    }
    None
}

/// The index of the first occurrence of `needle` in `hay`.
pub fn find(hay: &[char], needle: &[char]) -> (r: Option<usize>)
    ensures
        match r {
            Some(i) => first_occurrence(hay@, needle@) == Some(i as int) && occurs_at(hay@, needle@, i as int),
            None => first_occurrence(hay@, needle@) is None,
        },
        r is Some <==> contains(hay@, needle@),
{
    let r = find_from(hay, needle, 0);
    match r {
        Some(i) => {
            assert(contains(hay@, needle@));
            let ghost c = choose|k: int| occurs_at(hay@, needle@, k) && forall|j: int| 0 <= j < k ==> !occurs_at(hay@, needle@, j);
            assert(occurs_at(hay@, needle@, c));
            assert(c == i as int) by {
                if c < i {
                } else if c > i {
                    assert(!occurs_at(hay@, needle@, i as int));
                }
            }
        },
        None => {},
    }
    r
}

/// Whether `needle` occurs in `hay`.
pub fn contains_chars(hay: &[char], needle: &[char]) -> (r: bool)
    ensures
        r == contains(hay@, needle@),
{
    find(hay, needle).is_some()
}

/// Whether `needle` occurs in the text `hay`.
pub fn str_contains(hay: &str, needle: &str) -> (r: bool)
    ensures
        r == contains(hay@, needle@),
{
    let h = to_chars(hay);
    let n = to_chars(needle);
    contains_chars(h.as_slice(), n.as_slice())
}

/// Whether `hay` begins with `prefix`.
pub fn starts_with_chars(hay: &[char], prefix: &[char]) -> (r: bool)
    ensures
        r == starts_with(hay@, prefix@),
{
    let r = matches_at(hay, prefix, 0);
    assert(hay@.take(prefix@.len() as int) =~= hay@.subrange(0, prefix@.len() as int));
    r
}

/// Whether `hay` ends with `suffix`.
pub fn ends_with_chars(hay: &[char], suffix: &[char]) -> (r: bool)
    ensures
        r == ends_with(hay@, suffix@),
{
    if suffix.len() > hay.len() {
        return false;
    }
    let r = matches_at(hay, suffix, hay.len() - suffix.len());
    assert(hay@.skip(hay@.len() - suffix@.len()) =~= hay@.subrange(
        hay@.len() - suffix@.len(),
        hay@.len() as int,
    ));
    r
}

/// Whether two texts are equal.
pub fn str_eq(a: &str, b: &str) -> (r: bool)
    ensures
        r == (a@ == b@),
{
    let x = to_chars(a);
    let y = to_chars(b);
    if x.len() != y.len() {
        return false;
    }
    let r = matches_at(x.as_slice(), y.as_slice(), 0);
    assert(x@.subrange(0, y@.len() as int) =~= x@);
    r
}

// ---------------------------------------------------------------------------
// Numbers
// ---------------------------------------------------------------------------

/// `c` is one of the ASCII digits.
pub open spec fn is_digit(c: char) -> bool {
    '0' <= c && c <= '9'
}

/// The value of an ASCII digit.
pub open spec fn digit_value(c: char) -> int {
    (c as int) - ('0' as int)
}

/// Every character of `s` is an ASCII digit.
pub open spec fn all_digits(s: Seq<char>) -> bool {
    forall|i: int| 0 <= i < s.len() ==> is_digit(#[trigger] s[i])
}

/// The number that the decimal digits `s` write.
pub open spec fn digits_value(s: Seq<char>) -> int
    decreases s.len(),
{
    if s.len() == 0 {
        0
    } else {
        digits_value(s.drop_last()) * 10 + digit_value(s.last())
    }
}

/// What `usize::from_str` gives: an optional `+`, then one or more ASCII
/// digits whose value fits in a `usize`.
pub open spec fn parse_usize(s: Seq<char>) -> Option<usize> {
    let body = if s.len() > 0 && s[0] == '+' {
        s.drop_first()
    } else {
        s
    };
    if body.len() > 0 && all_digits(body) && digits_value(body) <= usize::MAX {
        Some(digits_value(body) as usize)
    } else {
        None
    }
}

/// The decimal digits of `n`, without leading zeros (`"0"` for zero).
pub open spec fn decimal(n: nat) -> Seq<char>
    decreases n,
{
    if n < 10 {
        seq![(n + ('0' as nat)) as char]
    } else {
        decimal(n / 10).push(((n % 10) + ('0' as nat)) as char)
    }
}

proof fn lemma_digits_value_nonneg(s: Seq<char>)
    requires
        all_digits(s),
    ensures
        digits_value(s) >= 0,
    decreases s.len(),
{
    if s.len() > 0 {
        assert(all_digits(s.drop_last())) by {
            assert forall|i: int| 0 <= i < s.drop_last().len() implies is_digit(#[trigger] s.drop_last()[i]) by {
                assert(s.drop_last()[i] == s[i]);
            }
        }
        lemma_digits_value_nonneg(s.drop_last());
        assert(is_digit(s[s.len() - 1]));
    }
}

proof fn lemma_digits_value_grows(s: Seq<char>, c: char)
    requires
        all_digits(s),
        is_digit(c),
    ensures
        digits_value(s.push(c)) == digits_value(s) * 10 + digit_value(c),
        digits_value(s.push(c)) >= digits_value(s),
{
    assert(s.push(c).drop_last() =~= s);
    lemma_digits_value_nonneg(s);
}

/// `usize::from_str`: the number written by `s`, if any.
pub fn parse_usize_chars(s: &[char]) -> (r: Option<usize>)
    ensures
        r == parse_usize(s@),
{
    let start: usize = if s.len() > 0 && s[0] == '+' { 1 } else { 0 };
    let ghost body = if s@.len() > 0 && s@[0] == '+' { s@.drop_first() } else { s@ };
    assert(body =~= s@.skip(start as int));
    if start >= s.len() {
        return None;
    }
    let mut v: usize = 0;
    let mut i = start;
    while i < s.len()
        invariant
            start <= i <= s@.len(),
            body == s@.skip(start as int),
            body == (if s@.len() > 0 && s@[0] == '+' { s@.drop_first() } else { s@ }),
            all_digits(s@.subrange(start as int, i as int)),
            v as int == digits_value(s@.subrange(start as int, i as int)),
        decreases s.len() - i,
    {
        let c = s[i];
        let ghost pre = s@.subrange(start as int, i as int);
        assert(s@.subrange(start as int, i + 1) =~= pre.push(c));
        if !('0' <= c && c <= '9') {
            assert(!is_digit(body[i - start]));
            assert(!all_digits(body));
            assert(parse_usize(s@) is None);
            return None;
        }
        proof {
            lemma_digits_value_grows(pre, c);
            assert(all_digits(pre.push(c))) by {
                assert forall|m: int| 0 <= m < pre.push(c).len() implies is_digit(#[trigger] pre.push(c)[m]) by {
                    if m < pre.len() {
                        assert(pre.push(c)[m] == pre[m]);
                    }
                }
            }
        }
        let d = (c as u32 - '0' as u32) as usize;
        assert(d as int == digit_value(c));
        assert(digits_value(s@.subrange(start as int, i + 1)) == v * 10 + d);
        match v.checked_mul(10) {
            Some(t) => match t.checked_add(d) {
                Some(n) => {
                    v = n;
                },
                None => {
                    proof { lemma_too_big(s@, start as int, i as int); }
                    return None;
                },
            },
            None => {
                proof { lemma_too_big(s@, start as int, i as int); }
                return None;
            },
        }
        i = i + 1;
    }
    assert(s@.subrange(start as int, s@.len() as int) =~= body);
    Some(v)
}

proof fn lemma_too_big(s: Seq<char>, start: int, i: int)
    requires
        0 <= start <= i < s.len(),
        all_digits(s.subrange(start, i + 1)),
        digits_value(s.subrange(start, i + 1)) > usize::MAX,
    ensures
        !(all_digits(s.skip(start)) && digits_value(s.skip(start)) <= usize::MAX),
    decreases s.len() - i,
{
    if all_digits(s.skip(start)) {
        if i + 1 == s.len() {
            assert(s.subrange(start, i + 1) =~= s.skip(start));
        } else {
            let next = s.subrange(start, i + 2);
            assert(next.drop_last() =~= s.subrange(start, i + 1));
            assert(is_digit(s[i + 1])) by {
                assert(s.skip(start)[i + 1 - start] == s[i + 1]);
            }
            assert(all_digits(next)) by {
                assert forall|m: int| 0 <= m < next.len() implies is_digit(#[trigger] next[m]) by {
                    assert(next[m] == s.skip(start)[m]);
                }
            }
            lemma_digits_value_grows(s.subrange(start, i + 1), s[i + 1]);
            assert(s.subrange(start, i + 1).push(s[i + 1]) =~= next);
            lemma_too_big(s, start, i + 1);
        }
    }
}

/// `usize::from_str` on a text, with 0 when it fails.
pub fn parse_usize_or_zero(s: &str) -> (r: usize)
    ensures
        r == match parse_usize(s@) {
            Some(n) => n,
            None => 0,
        },
{
    let cs = to_chars(s);
    match parse_usize_chars(cs.as_slice()) {
        Some(n) => n,
        None => 0,
    }
}

/// The decimal representation of `n`.
pub fn decimal_string(n: usize) -> (r: String)
    ensures
        r@ == decimal(n as nat),
    decreases n,
{
    if n < 10 {
        let mut r = String::new();
        let c = char_of_digit(n as u32);
        push_char(&mut r, c);
        assert(r@ =~= decimal(n as nat));
        r
    } else {
        let mut r = decimal_string(n / 10);
        let c = char_of_digit((n % 10) as u32);
        push_char(&mut r, c);
        r
    }
}

fn char_of_digit(d: u32) -> (c: char)
    requires
        d < 10,
    ensures
        c == ((d as nat) + ('0' as nat)) as char,
{
    if d == 0 { '0' } else if d == 1 { '1' } else if d == 2 { '2' } else if d == 3 { '3' } else if d == 4 { '4' }
    else if d == 5 { '5' } else if d == 6 { '6' } else if d == 7 { '7' } else if d == 8 { '8' } else { '9' }
}

// ---------------------------------------------------------------------------
// Whitespace
// ---------------------------------------------------------------------------

/// The characters with the Unicode `White_Space` property, which
/// `char::is_whitespace` accepts.
pub open spec fn is_white_space(c: char) -> bool {
    ||| ('\u{9}' <= c && c <= '\u{d}')
    ||| c == ' '
    ||| c == '\u{85}'
    ||| c == '\u{a0}'
    ||| c == '\u{1680}'
    ||| ('\u{2000}' <= c && c <= '\u{200a}')
    ||| c == '\u{2028}'
    ||| c == '\u{2029}'
    ||| c == '\u{202f}'
    ||| c == '\u{205f}'
    ||| c == '\u{3000}'
}

/// `s` without leading and trailing white space, as `str::trim` gives it:
/// `s[lo..hi]` where `lo` and `hi` bound the white space at either end.
pub open spec fn trimmed(s: Seq<char>, lo: int, hi: int) -> bool {
    &&& 0 <= lo <= hi <= s.len()
    &&& forall|i: int| 0 <= i < lo ==> is_white_space(#[trigger] s[i])
    &&& forall|i: int| hi <= i < s.len() ==> is_white_space(#[trigger] s[i])
    &&& lo < hi ==> !is_white_space(s[lo]) && !is_white_space(s[hi - 1])
}

fn white_space(c: char) -> (r: bool)
    ensures
        r == is_white_space(c),
{
    ('\u{9}' <= c && c <= '\u{d}') || c == ' ' || c == '\u{85}' || c == '\u{a0}' || c == '\u{1680}'
        || ('\u{2000}' <= c && c <= '\u{200a}') || c == '\u{2028}' || c == '\u{2029}' || c == '\u{202f}'
        || c == '\u{205f}' || c == '\u{3000}'
}

/// `str::trim`: `s` without white space at either end.
pub fn trim(s: &str) -> (r: String)
    ensures
        exists|lo: int, hi: int| trimmed(s@, lo, hi) && r@ == s@.subrange(lo, hi),
{
    let cs = to_chars(s);
    let mut lo: usize = 0;
    while lo < cs.len() && white_space(cs[lo])
        invariant
            lo <= cs@.len(),
            cs@ == s@,
            forall|i: int| 0 <= i < lo ==> is_white_space(#[trigger] cs@[i]),
        decreases cs.len() - lo,
    {
        lo = lo + 1;
    }
    let mut hi: usize = cs.len();
    while hi > lo && white_space(cs[hi - 1])
        invariant
            lo <= hi <= cs@.len(),
            cs@ == s@,
            forall|i: int| hi <= i < cs@.len() ==> is_white_space(#[trigger] cs@[i]),
        decreases hi,
    {
        hi = hi - 1;
    }
    let r = string_of(cs.as_slice(), lo, hi);
    assert(trimmed(s@, lo as int, hi as int));
    r
}

/// A text has at most one line more than it has characters.
pub proof fn lemma_lines_count(s: Seq<char>, cur: Seq<char>)
    ensures
        lines_from(s, cur).len() <= s.len() + 1,
    decreases s.len(),
{
    if s.len() > 0 {
        lemma_lines_count(s.drop_first(), seq![]);
        lemma_lines_count(s.drop_first(), cur.push(s[0]));
    }
}


/// `s` holds no newline.
pub open spec fn no_newline(s: Seq<char>) -> bool {
    forall|k: int| 0 <= k < s.len() ==> s[k] != '\n'
}

/// Lines that split back into themselves once joined: none ends with a
/// carriage return, and the last, if any, is not empty.
pub open spec fn reads_back(w: Seq<Seq<char>>) -> bool {
    &&& forall|i: int| 0 <= i < w.len() && (#[trigger] w[i]).len() > 0 ==> w[i].last() != '\r'
    &&& w.len() > 0 ==> w.last().len() > 0
}

/// No line of a text holds a newline.
pub proof fn lemma_lines_have_no_newline(s: Seq<char>, cur: Seq<char>)
    requires
        no_newline(cur),
    ensures
        forall|i: int| 0 <= i < lines_from(s, cur).len() ==> no_newline(#[trigger] lines_from(s, cur)[i]),
    decreases s.len(),
{
    if s.len() == 0 {
        if cur.len() > 0 {
            assert(lines_from(s, cur) == seq![cur]);
            assert forall|i: int| 0 <= i < lines_from(s, cur).len() implies no_newline(#[trigger] lines_from(s, cur)[i]) by {
                assert(lines_from(s, cur)[i] == cur);
            }
        }
    } else if s[0] == '\n' {
        lemma_lines_have_no_newline(s.drop_first(), seq![]);
        let rest = lines_from(s.drop_first(), seq![]);
        let all = seq![strip_cr(cur)] + rest;
        assert(no_newline(strip_cr(cur))) by {
            if cur.len() > 0 && cur.last() == '\r' {
                assert forall|k: int| 0 <= k < cur.drop_last().len() implies cur.drop_last()[k] != '\n' by {
                    assert(cur.drop_last()[k] == cur[k]);
                }
            }
        }
        assert forall|i: int| 0 <= i < all.len() implies no_newline(#[trigger] all[i]) by {
            if i > 0 {
                assert(all[i] == rest[i - 1]);
            }
        }
        assert(lines_from(s, cur) == all);
    } else {
        let next = cur.push(s[0]);
        assert forall|k: int| 0 <= k < next.len() implies next[k] != '\n' by {
            if k < cur.len() {
                assert(next[k] == cur[k]);
            }
        }
        lemma_lines_have_no_newline(s.drop_first(), next);
        assert(lines_from(s, cur) == lines_from(s.drop_first(), next));
    }
}

/// `s` holds no carriage return.
pub open spec fn no_cr(s: Seq<char>) -> bool {
    forall|k: int| 0 <= k < s.len() ==> s[k] != '\r'
}

/// No line of a text without carriage returns holds one.
pub proof fn lemma_lines_have_no_cr(s: Seq<char>, cur: Seq<char>)
    requires
        no_cr(s),
        no_cr(cur),
    ensures
        forall|i: int| 0 <= i < lines_from(s, cur).len() ==> no_cr(#[trigger] lines_from(s, cur)[i]),
    decreases s.len(),
{
    if s.len() == 0 {
        if cur.len() > 0 {
            assert(lines_from(s, cur) == seq![cur]);
            assert forall|i: int| 0 <= i < lines_from(s, cur).len() implies no_cr(#[trigger] lines_from(s, cur)[i]) by {
                assert(lines_from(s, cur)[i] == cur);
            }
        }
    } else {
        assert(no_cr(s.drop_first())) by {
            assert forall|k: int| 0 <= k < s.drop_first().len() implies s.drop_first()[k] != '\r' by {
                assert(s.drop_first()[k] == s[k + 1]);
            }
        }
        if s[0] == '\n' {
            lemma_lines_have_no_cr(s.drop_first(), seq![]);
            let rest = lines_from(s.drop_first(), seq![]);
            assert(cur.len() > 0 ==> cur[cur.len() - 1] != '\r');
            assert(strip_cr(cur) == cur);
            let all = seq![cur] + rest;
            assert forall|i: int| 0 <= i < all.len() implies no_cr(#[trigger] all[i]) by {
                if i > 0 {
                    assert(all[i] == rest[i - 1]);
                }
            }
            assert(lines_from(s, cur) == all);
        } else {
            let next = cur.push(s[0]);
            assert forall|k: int| 0 <= k < next.len() implies next[k] != '\r' by {
                if k < cur.len() {
                    assert(next[k] == cur[k]);
                }
            }
            lemma_lines_have_no_cr(s.drop_first(), next);
            assert(lines_from(s, cur) == lines_from(s.drop_first(), next));
        }
    }
}

proof fn lemma_lines_without_newline(a: Seq<char>, cur: Seq<char>)
    requires
        no_newline(a),
    ensures
        lines_from(a, cur) == (if cur.len() + a.len() == 0 { Seq::<Seq<char>>::empty() } else { seq![cur + a] }),
    decreases a.len(),
{
    if a.len() > 0 {
        lemma_lines_without_newline(a.drop_first(), cur.push(a[0]));
        assert(cur.push(a[0]) + a.drop_first() =~= cur + a);
    } else {
        assert(cur + a =~= cur);
    }
}

proof fn lemma_lines_through_newline(a: Seq<char>, t: Seq<char>, cur: Seq<char>)
    requires
        no_newline(a),
    ensures
        lines_from(a + seq!['\n'] + t, cur) == seq![strip_cr(cur + a)] + lines_from(t, seq![]),
    decreases a.len(),
{
    let s = a + seq!['\n'] + t;
    if a.len() == 0 {
        assert(s[0] == '\n');
        assert(s.drop_first() =~= t);
        assert(cur + a =~= cur);
    } else {
        assert(s[0] == a[0]);
        assert(s.drop_first() =~= a.drop_first() + seq!['\n'] + t);
        lemma_lines_through_newline(a.drop_first(), t, cur.push(a[0]));
        assert(cur.push(a[0]) + a.drop_first() =~= cur + a);
    }
}

proof fn lemma_join_front(w: Seq<Seq<char>>)
    requires
        w.len() >= 2,
    ensures
        join_lines(w) == w[0] + seq!['\n'] + join_lines(w.drop_first()),
    decreases w.len(),
{
    let a = w.drop_last();
    let b = w.drop_first();
    if w.len() == 2 {
        assert(a =~= seq![w[0]]);
        assert(b =~= seq![w[1]]);
        assert(join_lines(a) == w[0]);
        assert(join_lines(b) == w[1]);
        assert(join_lines(w) == join_lines(a) + seq!['\n'] + w.last());
    } else {
        lemma_join_front(a);
        assert(a.drop_first() =~= b.drop_last());
        assert(b.last() == w.last());
        assert(a[0] == w[0]);
        assert(join_lines(w) == join_lines(a) + seq!['\n'] + w.last());
        assert(join_lines(a) == w[0] + seq!['\n'] + join_lines(a.drop_first()));
        assert(join_lines(b) == join_lines(b.drop_last()) + seq!['\n'] + b.last());
        assert(w[0] + seq!['\n'] + join_lines(a.drop_first()) + seq!['\n'] + w.last()
            =~= w[0] + seq!['\n'] + (join_lines(b.drop_last()) + seq!['\n'] + b.last()));
    }
}

/// Joining lines with newlines and splitting the text again gives back lines
/// that hold no newline and read back (see `reads_back`).
pub proof fn lemma_lines_of_join(w: Seq<Seq<char>>)
    requires
        forall|i: int| 0 <= i < w.len() ==> no_newline(#[trigger] w[i]),
        reads_back(w),
    ensures
        lines(join_lines(w)) == w,
    decreases w.len(),
{
    if w.len() == 0 {
    } else if w.len() == 1 {
        assert(no_newline(w[0]));
        lemma_lines_without_newline(w[0], seq![]);
        assert(Seq::<char>::empty() + w[0] =~= w[0]);
        assert(seq![w[0]] =~= w);
    } else {
        lemma_join_front(w);
        assert(no_newline(w[0]));
        lemma_lines_through_newline(w[0], join_lines(w.drop_first()), seq![]);
        assert(Seq::<char>::empty() + w[0] =~= w[0]);
        assert(strip_cr(w[0]) == w[0]);
        let rest = w.drop_first();
        assert forall|i: int| 0 <= i < rest.len() implies no_newline(#[trigger] rest[i]) by {
            assert(rest[i] == w[i + 1]);
        }
        assert forall|i: int| 0 <= i < rest.len() && (#[trigger] rest[i]).len() > 0 implies rest[i].last() != '\r' by {
            assert(rest[i] == w[i + 1]);
        }
        lemma_lines_of_join(rest);
        assert(seq![w[0]] + rest =~= w);
    }
}


/// A text cut at a newline: its lines are those of the part up to and
/// including the newline, then those of the rest.
pub proof fn lemma_lines_split(a: Seq<char>, b: Seq<char>, cur: Seq<char>)
    ensures
        lines_from(a + seq!['\n'] + b, cur) == lines_from(a + seq!['\n'], cur) + lines_from(b, seq![]),
    decreases a.len(),
{
    let s = a + seq!['\n'] + b;
    let t = a + seq!['\n'];
    let e = Seq::<char>::empty();
    if a.len() == 0 {
        assert(s[0] == '\n');
        assert(s.drop_first() =~= b);
        assert(t[0] == '\n');
        assert(t.drop_first() =~= e);
        assert(lines_from(e, e) =~= Seq::<Seq<char>>::empty());
        assert(lines_from(s, cur) == seq![strip_cr(cur)] + lines_from(b, e));
        assert(lines_from(t, cur) == seq![strip_cr(cur)] + lines_from(e, e));
        assert(lines_from(t, cur) =~= seq![strip_cr(cur)]);
    } else {
        assert(s[0] == a[0] && t[0] == a[0]);
        assert(s.drop_first() =~= a.drop_first() + seq!['\n'] + b);
        assert(t.drop_first() =~= a.drop_first() + seq!['\n']);
        if a[0] == '\n' {
            lemma_lines_split(a.drop_first(), b, seq![]);
            assert(lines_from(s, cur) == seq![strip_cr(cur)] + lines_from(s.drop_first(), e));
            assert(lines_from(t, cur) == seq![strip_cr(cur)] + lines_from(t.drop_first(), e));
            assert(lines_from(s, cur) =~= lines_from(t, cur) + lines_from(b, e));
        } else {
            lemma_lines_split(a.drop_first(), b, cur.push(a[0]));
            assert(lines_from(s, cur) == lines_from(s.drop_first(), cur.push(a[0])));
            assert(lines_from(t, cur) == lines_from(t.drop_first(), cur.push(a[0])));
        }
    }
}

/// A final newline adds no line to a text whose last line is not empty: it
/// only takes one carriage return off the end of that line.
pub proof fn lemma_lines_final_newline(a: Seq<char>, cur: Seq<char>)
    requires
        (cur + a).len() > 0,
        a.len() == 0 || a.last() != '\n',
    ensures
        lines_from(a, cur).len() > 0,
        lines_from(a + seq!['\n'], cur) == lines_from(a, cur).drop_last().push(strip_cr(lines_from(a, cur).last())),
    decreases a.len(),
{
    let t = a + seq!['\n'];
    let e = Seq::<char>::empty();
    if a.len() == 0 {
        assert(cur + a =~= cur);
        assert(t =~= seq!['\n']);
        assert(t[0] == '\n');
        assert(t.drop_first() =~= e);
        assert(lines_from(e, e) =~= Seq::<Seq<char>>::empty());
        assert(lines_from(t, cur) == seq![strip_cr(cur)] + lines_from(e, e));
        assert(lines_from(a, cur) == seq![cur]);
        assert(lines_from(t, cur) =~= seq![cur].drop_last().push(strip_cr(cur)));
    } else {
        assert(t[0] == a[0]);
        assert(t.drop_first() =~= a.drop_first() + seq!['\n']);
        if a[0] == '\n' {
            assert(a.len() >= 2);
            assert(Seq::<char>::empty() + a.drop_first() =~= a.drop_first());
            lemma_lines_final_newline(a.drop_first(), seq![]);
            let y = lines_from(a.drop_first(), e);
            assert(lines_from(t, cur) == seq![strip_cr(cur)] + lines_from(t.drop_first(), e));
            assert(lines_from(a, cur) == seq![strip_cr(cur)] + y);
            assert((seq![strip_cr(cur)] + y).last() == y.last());
            assert(seq![strip_cr(cur)] + y.drop_last().push(strip_cr(y.last()))
                =~= (seq![strip_cr(cur)] + y).drop_last().push(strip_cr(y.last())));
        } else {
            assert(cur.push(a[0]) + a.drop_first() =~= cur + a);
            lemma_lines_final_newline(a.drop_first(), cur.push(a[0]));
            assert(lines_from(t, cur) == lines_from(t.drop_first(), cur.push(a[0])));
            assert(lines_from(a, cur) == lines_from(a.drop_first(), cur.push(a[0])));
        }
    }
}

/// `s` with every carriage return at its end taken off.
pub open spec fn trim_trailing_cr(s: Seq<char>) -> Seq<char>
    decreases s.len(),
{
    if s.len() > 0 && s.last() == '\r' {
        trim_trailing_cr(s.drop_last())
    } else {
        s
    }
}

/// Taking one carriage return off the end first changes nothing of what
/// `trim_trailing_cr` gives.
pub proof fn lemma_trim_after_strip(s: Seq<char>)
    ensures
        trim_trailing_cr(strip_cr(s)) == trim_trailing_cr(s),
{
}

/// `s` with every carriage return at its end taken off.
pub fn without_trailing_cr(s: &str) -> (r: String)
    ensures
        r@ == trim_trailing_cr(s@),
{
    let cs = to_chars(s);
    let mut end = cs.len();
    assert(cs@.take(end as int) =~= s@);
    while end > 0 && cs[end - 1] == '\r'
        invariant
            end <= cs@.len(),
            trim_trailing_cr(cs@.take(end as int)) == trim_trailing_cr(s@),
        decreases end,
    {
        assert(cs@.take(end as int).drop_last() =~= cs@.take(end - 1));
        end = end - 1;
    }
    assert(cs@.subrange(0, end as int) =~= cs@.take(end as int));
    string_of(cs.as_slice(), 0, end)
}

/// A lone newline is one empty line.
pub proof fn lemma_lines_of_newline()
    ensures
        lines(seq!['\n']) == seq![Seq::<char>::empty()],
{
    let s = seq!['\n'];
    assert(s.len() == 1 && s[0] == '\n');
    assert(s.drop_first() =~= Seq::<char>::empty());
    assert(lines_from(s.drop_first(), seq![]) == Seq::<Seq<char>>::empty());
    assert(strip_cr(Seq::<char>::empty()) == Seq::<char>::empty());
    assert(lines_from(s, seq![]) =~= seq![Seq::<char>::empty()]);
}

} // verus!

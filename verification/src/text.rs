//! Character sequences: strings as vectors of characters, splitting and
//! joining, searching, and decimal numbers.
//!
//! Everything here is stated over `Seq<char>`, the view of `str`, `String`
//! and `Vec<char>` alike.

use vstd::prelude::*;

verus! {

/// `String::push` of the standard library: it appends the character `c` to
/// the end of the string and changes nothing else. Taken on trust.
pub assume_specification[ String::push ](s: &mut String, c: char)
    ensures
        final(s)@ == old(s)@.push(c),
;

/// The views of a sequence of character vectors.
pub open spec fn views(ls: Seq<Vec<char>>) -> Seq<Seq<char>> {
    ls.map_values(|l: Vec<char>| l@)
}

/// The text of an optional string.
pub open spec fn text_of(o: Option<String>) -> Option<Seq<char>> {
    match o {
        Some(s) => Some(s@),
        None => None,
    }
}

/// The text of an optional string slice.
pub open spec fn slice_text(o: Option<&str>) -> Option<Seq<char>> {
    match o {
        Some(s) => Some(s@),
        None => None,
    }
}

/// The characters of a string, in order.
pub(crate) fn chars_of(s: &str) -> (v: Vec<char>)
    ensures
        v@ == s@,
{
    let mut v: Vec<char> = Vec::new();
    for c in it: s.chars()
        invariant
            v@ == it.seq().take(it.index() as int),
            it.seq() == s@,
    {
        v.push(c);
    }
    v
}

/// The characters `v[from..to]` as a vector of their own.
pub(crate) fn copy_range(v: &Vec<char>, from: usize, to: usize) -> (r: Vec<char>)
    requires
        from <= to <= v.len(),
    ensures
        r@ == v@.subrange(from as int, to as int),
{
    let mut r: Vec<char> = Vec::new();
    let mut i: usize = from;
    while i < to
        invariant
            from <= i <= to <= v.len(),
            r@ == v@.subrange(from as int, i as int),
        decreases to - i,
    {
        r.push(v[i]);
        i += 1;
    }
    r
}

/// Appends the characters `v[from..to]` to a string.
pub(crate) fn push_range(out: &mut String, v: &Vec<char>, from: usize, to: usize)
    requires
        from <= to <= v.len(),
    ensures
        final(out)@ == old(out)@ + v@.subrange(from as int, to as int),
{
    let mut i: usize = from;
    while i < to
        invariant
            from <= i <= to <= v.len(),
            out@ == old(out)@ + v@.subrange(from as int, i as int),
        decreases to - i,
    {
        out.push(v[i]);
        i += 1;
    }
}

/// The string made of the characters `v[from..to]`.
pub(crate) fn string_of_range(v: &Vec<char>, from: usize, to: usize) -> (s: String)
    requires
        from <= to <= v.len(),
    ensures
        s@ == v@.subrange(from as int, to as int),
{
    let mut s = String::new();
    push_range(&mut s, v, from, to);
    s
}

/// The string made of the characters of `v`.
pub(crate) fn string_of(v: &Vec<char>) -> (s: String)
    ensures
        s@ == v@,
{
    let s = string_of_range(v, 0, v.len());
    assert(v@.subrange(0, v.len() as int) == v@);
    s
}

/// The index of the first element that satisfies `p`, if there is one.
#[verifier::opaque]
pub open spec fn first_where<T>(s: Seq<T>, p: spec_fn(T) -> bool) -> Option<int>
    decreases s.len(),
{
    if s.len() == 0 {
        None
    } else {
        match first_where(s.drop_last(), p) {
            Some(i) => Some(i),
            None => if p(s.last()) {
                Some(s.len() - 1)
            } else {
                None
            },
        }
    }
}

/// What `first_where` finds satisfies `p` and nothing before it does; where
/// it finds nothing, nothing satisfies `p`.
pub proof fn lemma_first_where<T>(s: Seq<T>, p: spec_fn(T) -> bool)
    ensures
        match first_where(s, p) {
            Some(i) => 0 <= i < s.len() && p(s[i]) && forall|j: int| 0 <= j < i ==> !p(s[j]),
            None => forall|j: int| 0 <= j < s.len() ==> !p(s[j]),
        },
    decreases s.len(),
{
    reveal(first_where);
    if s.len() > 0 {
        let t = s.drop_last();
        lemma_first_where(t, p);
        assert forall|j: int| 0 <= j < t.len() implies t[j] == s[j] by {}
        match first_where(t, p) {
            Some(i) => {
                assert(p(t[i]));
                assert forall|j: int| 0 <= j < i implies !p(s[j]) by {
                    assert(!p(t[j]));
                }
            },
            None => {
                assert forall|j: int| 0 <= j < t.len() implies !p(s[j]) by {
                    assert(!p(t[j]));
                }
            },
        }
    }
}

/// An index that satisfies `p` with nothing before it doing so is what
/// `first_where` finds.
pub proof fn lemma_first_where_at<T>(s: Seq<T>, p: spec_fn(T) -> bool, i: int)
    requires
        0 <= i < s.len(),
        p(s[i]),
        forall|j: int| 0 <= j < i ==> !p(s[j]),
    ensures
        first_where(s, p) == Some(i),
{
    lemma_first_where(s, p);
}

/// The predicate "is the character `x`".
pub open spec fn is_char(x: char) -> spec_fn(char) -> bool {
    |c: char| c == x
}

/// The decimal digits `0` to `9`.
pub open spec fn is_digit(c: char) -> bool {
    '0' <= c && c <= '9'
}

/// The predicate "is a decimal digit".
pub open spec fn digit() -> spec_fn(char) -> bool {
    |c: char| is_digit(c)
}

/// Whether `c` is one of the decimal digits `0` to `9`.
pub(crate) fn char_is_digit(c: char) -> (r: bool)
    ensures
        r == is_digit(c),
{
    '0' <= c && c <= '9'
}

/// The index of the first `c` in `v`.
pub(crate) fn find_char(v: &Vec<char>, c: char) -> (r: Option<usize>)
    ensures
        match r {
            Some(i) => first_where(v@, is_char(c)) == Some(i as int),
            None => first_where(v@, is_char(c)) is None,
        },
{
    let mut i: usize = 0;
    while i < v.len()
        invariant
            i <= v.len(),
            forall|j: int| 0 <= j < i ==> !is_char(c)(v@[j]),
        decreases v.len() - i,
    {
        if v[i] == c {
            proof {
                lemma_first_where_at(v@, is_char(c), i as int);
            }
            return Some(i);
        }
        i += 1;
    }
    proof {
        lemma_first_where(v@, is_char(c));
    }
    None
}

/// The index of the first decimal digit in `v`.
pub(crate) fn find_digit(v: &Vec<char>) -> (r: Option<usize>)
    ensures
        match r {
            Some(i) => first_where(v@, digit()) == Some(i as int),
            None => first_where(v@, digit()) is None,
        },
{
    let mut i: usize = 0;
    while i < v.len()
        invariant
            i <= v.len(),
            forall|j: int| 0 <= j < i ==> !digit()(v@[j]),
        decreases v.len() - i,
    {
        if char_is_digit(v[i]) {
            proof {
                lemma_first_where_at(v@, digit(), i as int);
            }
            return Some(i);
        }
        i += 1;
    }
    proof {
        lemma_first_where(v@, digit());
    }
    None
}

/// The pieces of `s` between occurrences of `sep`. There is always at least
/// one piece; an empty text has one empty piece.
#[verifier::opaque]
pub open spec fn split(s: Seq<char>, sep: char) -> Seq<Seq<char>>
    decreases s.len(),
{
    if s.len() == 0 {
        seq![Seq::<char>::empty()]
    } else {
        let before = split(s.drop_last(), sep);
        if s.last() == sep {
            before.push(Seq::<char>::empty())
        } else {
            before.drop_last().push(before.last().push(s.last()))
        }
    }
}

/// A split has at least one piece.
pub proof fn lemma_split_nonempty(s: Seq<char>, sep: char)
    ensures
        split(s, sep).len() >= 1,
    decreases s.len(),
{
    reveal(split);
    if s.len() > 0 {
        lemma_split_nonempty(s.drop_last(), sep);
    }
}

/// Splits `v` at every `sep`.
pub(crate) fn split_chars(v: &Vec<char>, sep: char) -> (r: Vec<Vec<char>>)
    ensures
        views(r@) == split(v@, sep),
        r.len() >= 1,
{
    let mut out: Vec<Vec<char>> = Vec::new();
    let mut cur: Vec<char> = Vec::new();
    let mut i: usize = 0;
    proof {
        reveal(split);
    }
    assert(v@.take(0) == Seq::<char>::empty());
    assert(views(out@).push(cur@) == seq![Seq::<char>::empty()]);
    while i < v.len()
        invariant
            i <= v.len(),
            views(out@).push(cur@) == split(v@.take(i as int), sep),
        decreases v.len() - i,
    {
        let c: char = v[i];
        proof {
            reveal(split);
            let t = v@.take(i + 1);
            assert(t.drop_last() == v@.take(i as int));
            assert(t.last() == c);
            let before = split(v@.take(i as int), sep);
            assert(before.last() == cur@);
            assert(before.drop_last() == views(out@));
        }
        if c == sep {
            let ghost prev = out@;
            let ghost piece = cur@;
            out.push(cur);
            cur = Vec::new();
            assert(views(out@) == views(prev).push(piece));
        } else {
            cur.push(c);
        }
        i += 1;
    }
    let ghost prev = out@;
    out.push(cur);
    proof {
        assert(v@.take(v.len() as int) == v@);
        assert(views(out@) == views(prev).push(cur@));
    }
    out
}

/// The line without one trailing carriage return, if it has one.
pub open spec fn strip_cr(l: Seq<char>) -> Seq<char> {
    if l.len() > 0 && l.last() == '\r' {
        l.drop_last()
    } else {
        l
    }
}

/// The lines of a text. A line ends at a line feed, or at a carriage return
/// directly followed by a line feed; neither belongs to the line. What
/// follows the last line feed is a line of its own unless it is empty.
pub open spec fn lines(s: Seq<char>) -> Seq<Seq<char>> {
    let pieces = split(s, '\n');
    let ended = pieces.drop_last().map_values(|l: Seq<char>| strip_cr(l));
    if pieces.last().len() == 0 {
        ended
    } else {
        ended.push(pieces.last())
    }
}

/// Splits a text into its lines.
pub(crate) fn split_lines(v: &Vec<char>) -> (r: Vec<Vec<char>>)
    ensures
        views(r@) == lines(v@),
{
    let pieces = split_chars(v, '\n');
    let n: usize = pieces.len();
    let mut out: Vec<Vec<char>> = Vec::new();
    let mut i: usize = 0;
    while i + 1 < n
        invariant
            n == pieces.len(),
            n >= 1,
            i + 1 <= n,
            views(out@) == views(pieces@).take(i as int).map_values(|l: Seq<char>| strip_cr(l)),
        decreases n - i,
    {
        let p = &pieces[i];
        let m: usize = p.len();
        let line = if m > 0 && p[m - 1] == '\r' {
            copy_range(p, 0, m - 1)
        } else {
            copy_range(p, 0, m)
        };
        assert(line@ == strip_cr(p@)) by {
            assert(p@.subrange(0, m as int) == p@);
        }
        let ghost prev = out@;
        out.push(line);
        proof {
            let f = |l: Seq<char>| strip_cr(l);
            assert(views(pieces@).take(i + 1) == views(pieces@).take(i as int).push(p@));
            assert(views(out@) == views(prev).push(line@));
            assert(views(pieces@).take(i + 1).map_values(f) == views(pieces@).take(
                i as int,
            ).map_values(f).push(f(p@)));
        }
        i += 1;
    }
    assert(views(pieces@).take(n - 1) == views(pieces@).drop_last());
    let last = &pieces[n - 1];
    if last.len() > 0 {
        let ghost prev = out@;
        let line = copy_range(last, 0, last.len());
        assert(line@ == last@) by {
            assert(last@.subrange(0, last.len() as int) == last@);
        }
        out.push(line);
        assert(views(out@) == views(prev).push(line@));
    }
    out
}

/// The texts of `ls` with `sep` between each two neighbours.
#[verifier::opaque]
pub open spec fn join(ls: Seq<Seq<char>>, sep: char) -> Seq<char>
    decreases ls.len(),
{
    if ls.len() == 0 {
        Seq::<char>::empty()
    } else if ls.len() == 1 {
        ls[0]
    } else {
        join(ls.drop_last(), sep).push(sep) + ls.last()
    }
}

/// The string that joins `ls[0..n]` with `sep`.
pub(crate) fn join_first(ls: &Vec<Vec<char>>, n: usize, sep: char) -> (s: String)
    requires
        n <= ls.len(),
    ensures
        s@ == join(views(ls@).take(n as int), sep),
{
    let mut s = String::new();
    let mut i: usize = 0;
    proof {
        reveal(join);
    }
    while i < n
        invariant
            i <= n <= ls.len(),
            s@ == join(views(ls@).take(i as int), sep),
        decreases n - i,
    {
        if i > 0 {
            s.push(sep);
        }
        let l = &ls[i];
        push_range(&mut s, l, 0, l.len());
        proof {
            reveal(join);
            let t = views(ls@).take(i + 1);
            assert(t.drop_last() == views(ls@).take(i as int));
            assert(t.last() == l@);
            assert(l@.subrange(0, l.len() as int) == l@);
        }
        i += 1;
    }
    s
}

/// The value of a decimal digit.
pub open spec fn digit_value(c: char) -> nat {
    (c as int - '0' as int) as nat
}

/// The decimal digit of a value below ten.
pub open spec fn digit_char(d: nat) -> char {
    (d + '0' as nat) as char
}

/// Whether every character is a decimal digit.
pub open spec fn all_digits(s: Seq<char>) -> bool {
    forall|i: int| 0 <= i < s.len() ==> is_digit(#[trigger] s[i])
}

/// The number that a run of decimal digits writes.
pub open spec fn decimal_value(s: Seq<char>) -> nat
    decreases s.len(),
{
    if s.len() == 0 {
        0
    } else {
        decimal_value(s.drop_last()) * 10 + digit_value(s.last())
    }
}

/// The number that a text writes as an unsigned integer of the machine: an
/// optional `+`, then at least one decimal digit, the whole no greater than
/// `usize::MAX`. Leading zeros are allowed.
pub open spec fn spec_unsigned(s: Seq<char>) -> Option<nat> {
    let body = if s.len() > 0 && s[0] == '+' {
        s.skip(1)
    } else {
        s
    };
    if body.len() > 0 && all_digits(body) && decimal_value(body) <= usize::MAX {
        Some(decimal_value(body))
    } else {
        None
    }
}

/// The digits read so far never write more than all the digits do.
pub proof fn lemma_decimal_value_prefix(s: Seq<char>, k: int)
    requires
        0 <= k <= s.len(),
    ensures
        decimal_value(s.take(k)) <= decimal_value(s),
    decreases s.len(),
{
    if k == s.len() {
        assert(s.take(k) == s);
    } else {
        lemma_decimal_value_prefix(s.drop_last(), k);
        assert(s.drop_last().take(k) == s.take(k));
    }
}

/// Reads the decimal digits from `start` to the end as a number.
pub(crate) fn parse_digits(v: &Vec<char>, start: usize) -> (r: Option<usize>)
    requires
        start <= v.len(),
    ensures
        match r {
            Some(n) => v@.skip(start as int).len() > 0 && all_digits(v@.skip(start as int))
                && decimal_value(v@.skip(start as int)) == n,
            None => !(v@.skip(start as int).len() > 0 && all_digits(v@.skip(start as int))
                && decimal_value(v@.skip(start as int)) <= usize::MAX),
        },
{
    let ghost body = v@.skip(start as int);
    if start == v.len() {
        return None;
    }
    let mut acc: usize = 0;
    let mut i: usize = start;
    proof {
        assert(body.take(0) == Seq::<char>::empty());
    }
    while i < v.len()
        invariant
            start <= i <= v.len(),
            start < v.len(),
            body == v@.skip(start as int),
            all_digits(body.take(i - start)),
            acc == decimal_value(body.take(i - start)),
        decreases v.len() - i,
    {
        let c: char = v[i];
        let ghost read = body.take(i - start + 1);
        proof {
                assert(read.drop_last() == body.take(i - start));
            assert(read.last() == c);
            assert(body[i - start] == c);
            lemma_decimal_value_prefix(body, i - start + 1);
            assert(decimal_value(read) == decimal_value(read.drop_last()) * 10 + digit_value(c));
        }
        if !char_is_digit(c) {
            return None;
        }
        let d: usize = value_of_digit(c);
        let tens: usize = match acc.checked_mul(10) {
            Some(t) => t,
            None => {
                return None;
            },
        };
        acc = match tens.checked_add(d) {
            Some(t) => t,
            None => {
                return None;
            },
        };
        i += 1;
    }
    assert(body.take(v.len() - start) == body);
    Some(acc)
}

/// Reads an unsigned integer.
pub(crate) fn parse_unsigned(v: &Vec<char>) -> (r: Option<usize>)
    ensures
        match r {
            Some(n) => spec_unsigned(v@) == Some(n as nat),
            None => spec_unsigned(v@) is None,
        },
{
    let start: usize = if v.len() > 0 && v[0] == '+' {
        1
    } else {
        0
    };
    assert(v@.skip(0) == v@);
    parse_digits(v, start)
}

/// The number that a text writes as a signed integer of the machine: an
/// optional `+` or `-`, then at least one decimal digit, the whole within
/// `isize::MIN` and `isize::MAX`.
pub open spec fn spec_signed(s: Seq<char>) -> Option<int> {
    let signed = s.len() > 0 && (s[0] == '+' || s[0] == '-');
    let body = if signed {
        s.skip(1)
    } else {
        s
    };
    let value: int = if s.len() > 0 && s[0] == '-' {
        -(decimal_value(body) as int)
    } else {
        decimal_value(body) as int
    };
    if body.len() > 0 && all_digits(body) && isize::MIN <= value <= isize::MAX {
        Some(value)
    } else {
        None
    }
}

/// Reads a signed integer.
pub(crate) fn parse_signed(v: &Vec<char>) -> (r: Option<isize>)
    ensures
        match r {
            Some(n) => spec_signed(v@) == Some(n as int),
            None => spec_signed(v@) is None,
        },
{
    let negative: bool = v.len() > 0 && v[0] == '-';
    let start: usize = if v.len() > 0 && (v[0] == '+' || v[0] == '-') {
        1
    } else {
        0
    };
    assert(v@.skip(0) == v@);
    let size: usize = match parse_digits(v, start) {
        Some(n) => n,
        None => {
            return None;
        },
    };
    let most: usize = isize::MAX as usize;
    if negative {
        if size <= most {
            Some(-(size as isize))
        } else if size - 1 == most {
            Some(isize::MIN)
        } else {
            None
        }
    } else if size <= most {
        Some(size as isize)
    } else {
        None
    }
}

/// A number in decimal, with no leading zero but for zero itself.
pub open spec fn decimal_digits(n: nat) -> Seq<char>
    decreases n,
{
    if n < 10 {
        seq![digit_char(n)]
    } else {
        decimal_digits(n / 10).push(digit_char(n % 10))
    }
}

/// `s` with zeros put in front until it is at least `width` long.
pub open spec fn zero_pad(s: Seq<char>, width: nat) -> Seq<char> {
    if s.len() >= width {
        s
    } else {
        Seq::new((width - s.len()) as nat, |i: int| '0') + s
    }
}

/// A number in decimal, at least `width` digits long.
pub open spec fn padded_decimal(n: nat, width: nat) -> Seq<char> {
    zero_pad(decimal_digits(n), width)
}

/// The value of the digit `c`.
pub(crate) fn value_of_digit(c: char) -> (d: usize)
    requires
        is_digit(c),
    ensures
        d == digit_value(c),
        d < 10,
{
    (c as u32 - '0' as u32) as usize
}

/// The digit that writes `d`.
pub(crate) fn digit_of_value(d: usize) -> (c: char)
    requires
        d < 10,
    ensures
        c == digit_char(d as nat),
        is_digit(c),
        digit_value(c) == d,
{
    (d as u8 + 48u8) as char
}

/// Appends `n` in decimal.
pub(crate) fn push_decimal(out: &mut String, n: usize)
    ensures
        final(out)@ == old(out)@ + decimal_digits(n as nat),
    decreases n,
{
    if n >= 10 {
        push_decimal(out, n / 10);
    }
    out.push(digit_of_value(n % 10));
}

/// The number of decimal digits of `n`.
pub(crate) fn decimal_width(n: usize) -> (w: usize)
    ensures
        w == decimal_digits(n as nat).len(),
        w >= 1,
{
    let mut w: usize = 1;
    let mut m: usize = n;
    while m >= 10
        invariant
            decimal_digits(n as nat).len() == decimal_digits(m as nat).len() + w - 1,
            1 <= w <= 1 + (n - m),
            m <= n,
        decreases m,
    {
        m = m / 10;
        w += 1;
    }
    w
}

/// Appends `n` in decimal, with zeros in front up to `width` digits.
pub(crate) fn push_padded_decimal(out: &mut String, n: usize, width: usize)
    ensures
        final(out)@ == old(out)@ + padded_decimal(n as nat, width as nat),
{
    let w: usize = decimal_width(n);
    let pad: usize = if width > w {
        width - w
    } else {
        0
    };
    let mut i: usize = 0;
    while i < pad
        invariant
            i <= pad,
            out@ == old(out)@ + Seq::new(i as nat, |j: int| '0'),
        decreases pad - i,
    {
        out.push('0');
        assert(Seq::new((i + 1) as nat, |j: int| '0') == Seq::new(i as nat, |j: int| '0').push(
            '0',
        ));
        i += 1;
    }
    push_decimal(out, n);
    proof {
        let zeros = Seq::new(pad as nat, |j: int| '0');
        if w >= width {
            assert(zeros == Seq::<char>::empty());
            assert(old(out)@ + zeros == old(out)@);
        } else {
            assert(out@ == old(out)@ + (zeros + decimal_digits(n as nat)));
        }
    }
}

/// The lines of `ls` one after the other, each ended by a line feed.
#[verifier::opaque]
pub open spec fn unlines(ls: Seq<Seq<char>>) -> Seq<char>
    decreases ls.len(),
{
    if ls.len() == 0 {
        Seq::<char>::empty()
    } else {
        unlines(ls.drop_last()) + ls.last().push('\n')
    }
}

/// A line that comes back from a text as it went in: it holds no line feed
/// and does not end in a carriage return.
pub open spec fn is_clean_line(l: Seq<char>) -> bool {
    &&& forall|i: int| 0 <= i < l.len() ==> l[i] != '\n'
    &&& strip_cr(l) == l
}

/// Text without the separator that is put behind a text lengthens the last
/// piece of that text and adds no piece.
pub proof fn lemma_split_extend(a: Seq<char>, l: Seq<char>, sep: char)
    requires
        forall|i: int| 0 <= i < l.len() ==> l[i] != sep,
    ensures
        split(a + l, sep) == split(a, sep).drop_last().push(split(a, sep).last() + l),
    decreases l.len(),
{
    reveal(split);
    lemma_split_nonempty(a, sep);
    if l.len() == 0 {
        assert(a + l == a);
        assert(split(a, sep).last() + l == split(a, sep).last());
        assert(split(a, sep).drop_last().push(split(a, sep).last()) == split(a, sep));
    } else {
        let shorter = l.drop_last();
        lemma_split_extend(a, shorter, sep);
        assert((a + l).drop_last() == a + shorter);
        assert((a + l).last() == l.last());
        let before = split(a + shorter, sep);
        assert(before.last().push(l.last()) == split(a, sep).last() + l);
        assert(before.drop_last() == split(a, sep).drop_last());
    }
}

/// A text without the separator is its own single piece.
pub proof fn lemma_split_single(l: Seq<char>, sep: char)
    requires
        forall|i: int| 0 <= i < l.len() ==> l[i] != sep,
    ensures
        split(l, sep) == seq![l],
{
    reveal(split);
    let none = Seq::<char>::empty();
    lemma_split_extend(none, l, sep);
    assert(none + l == l);
    assert(split(none, sep) == seq![none]);
    assert(split(none, sep).drop_last().push(split(none, sep).last() + l) == seq![l]);
}

/// The pieces of two texts with a separator between them are the pieces of
/// the one followed by the pieces of the other.
pub proof fn lemma_split_around(a: Seq<char>, b: Seq<char>, sep: char)
    ensures
        split(a + seq![sep] + b, sep) == split(a, sep) + split(b, sep),
    decreases b.len(),
{
    reveal(split);
    let whole = a + seq![sep] + b;
    lemma_split_nonempty(a, sep);
    lemma_split_nonempty(b, sep);
    if b.len() == 0 {
        assert(whole.drop_last() == a);
        assert(whole.last() == sep);
        assert(split(b, sep) == seq![Seq::<char>::empty()]);
        assert(split(a, sep).push(Seq::<char>::empty()) == split(a, sep) + split(b, sep));
    } else {
        let shorter = b.drop_last();
        lemma_split_around(a, shorter, sep);
        lemma_split_nonempty(shorter, sep);
        assert(whole.drop_last() == a + seq![sep] + shorter);
        assert(whole.last() == b.last());
        let before = split(a, sep) + split(shorter, sep);
        if b.last() == sep {
            assert(before.push(Seq::<char>::empty()) == split(a, sep) + split(shorter, sep).push(
                Seq::<char>::empty(),
            ));
        } else {
            assert(before.last() == split(shorter, sep).last());
            assert(before.drop_last() == split(a, sep) + split(shorter, sep).drop_last());
            assert(before.drop_last().push(before.last().push(b.last())) == split(a, sep) + split(
                shorter,
                sep,
            ).drop_last().push(split(shorter, sep).last().push(b.last())));
        }
    }
}

/// The lines of two runs of lines are written one run after the other.
pub proof fn lemma_unlines_concat(a: Seq<Seq<char>>, b: Seq<Seq<char>>)
    ensures
        unlines(a + b) == unlines(a) + unlines(b),
    decreases b.len(),
{
    reveal(unlines);
    if b.len() == 0 {
        assert(a + b == a);
        assert(unlines(a) + unlines(b) == unlines(a));
    } else {
        lemma_unlines_concat(a, b.drop_last());
        assert((a + b).drop_last() == a + b.drop_last());
        assert((a + b).last() == b.last());
        assert(unlines(a + b) == unlines(a) + unlines(b));
    }
}

/// Lines without line feeds, each ended by one, split at the line feeds into
/// those lines and an empty piece at the end.
pub proof fn lemma_split_unlines(ls: Seq<Seq<char>>)
    requires
        forall|k: int, i: int| 0 <= k < ls.len() && 0 <= i < ls[k].len() ==> ls[k][i] != '\n',
    ensures
        split(unlines(ls), '\n') == ls.push(Seq::<char>::empty()),
    decreases ls.len(),
{
    reveal(split);
    reveal(unlines);
    if ls.len() == 0 {
        assert(split(unlines(ls), '\n') == ls.push(Seq::<char>::empty()));
    } else {
        let shorter = ls.drop_last();
        let l = ls.last();
        lemma_split_unlines(shorter);
        let written = unlines(shorter);
        lemma_split_extend(written, l, '\n');
        let whole = unlines(ls);
        assert(whole == (written + l).push('\n'));
        assert(whole.drop_last() == written + l);
        assert(whole.last() == '\n');
        assert(split(written, '\n').drop_last() == shorter);
        assert(split(written, '\n').last() + l == l);
        assert(shorter.push(l) == ls);
    }
}

/// Clean lines, each ended by a line feed, are the lines of the text that
/// they make.
pub proof fn lemma_lines_unlines(ls: Seq<Seq<char>>)
    requires
        forall|k: int| 0 <= k < ls.len() ==> is_clean_line(#[trigger] ls[k]),
    ensures
        lines(unlines(ls)) == ls,
{
    lemma_split_unlines(ls);
    let pieces = split(unlines(ls), '\n');
    assert(pieces.drop_last() == ls);
    assert(ls.map_values(|l: Seq<char>| strip_cr(l)) == ls);
}

/// The decimal digits of a number are digits, at least one, and write the
/// number.
pub proof fn lemma_decimal_digits(n: nat)
    ensures
        decimal_digits(n).len() >= 1,
        all_digits(decimal_digits(n)),
        decimal_value(decimal_digits(n)) == n,
    decreases n,
{
    if n < 10 {
        let s = decimal_digits(n);
        assert(s.drop_last().len() == 0);
        assert(decimal_value(s) == decimal_value(s.drop_last()) * 10 + digit_value(s.last()));
    } else {
        lemma_decimal_digits(n / 10);
        let s = decimal_digits(n);
        assert(s.drop_last() == decimal_digits(n / 10));
        assert(s.last() == digit_char(n % 10));
    }
}

/// A number below a hundred in two digits.
pub proof fn lemma_two_digits(n: nat)
    requires
        n <= 99,
    ensures
        padded_decimal(n, 2) == seq![digit_char(n / 10), digit_char(n % 10)],
{
    if n < 10 {
        assert(Seq::new(1, |i: int| '0') + decimal_digits(n) == seq![
            digit_char(n / 10),
            digit_char(n % 10),
        ]);
    } else {
        assert(decimal_digits(n / 10) == seq![digit_char(n / 10)]);
        assert(decimal_digits(n) == seq![digit_char(n / 10), digit_char(n % 10)]);
    }
}

/// A number below a thousand in three digits.
pub proof fn lemma_three_digits(n: nat)
    requires
        n <= 999,
    ensures
        padded_decimal(n, 3) == seq![
            digit_char(n / 100),
            digit_char((n / 10) % 10),
            digit_char(n % 10),
        ],
{
    if n < 10 {
        assert(Seq::new(2, |i: int| '0') + decimal_digits(n) == seq![
            digit_char(n / 100),
            digit_char((n / 10) % 10),
            digit_char(n % 10),
        ]);
    } else if n < 100 {
        assert(decimal_digits(n / 10) == seq![digit_char(n / 10)]);
        assert(decimal_digits(n) == seq![digit_char(n / 10), digit_char(n % 10)]);
        assert(Seq::new(1, |i: int| '0') + decimal_digits(n) == seq![
            digit_char(n / 100),
            digit_char((n / 10) % 10),
            digit_char(n % 10),
        ]);
    } else {
        assert(decimal_digits(n / 100) == seq![digit_char(n / 100)]);
        assert((n / 10) / 10 == n / 100);
        assert(decimal_digits(n / 10) == seq![digit_char(n / 100), digit_char((n / 10) % 10)]);
        assert(decimal_digits(n) == seq![
            digit_char(n / 100),
            digit_char((n / 10) % 10),
            digit_char(n % 10),
        ]);
    }
}

/// Three texts without the separator, with the separator between each two,
/// split into those three.
pub proof fn lemma_split_three(a: Seq<char>, m: Seq<char>, z: Seq<char>, sep: char)
    requires
        forall|i: int| 0 <= i < a.len() ==> a[i] != sep,
        forall|i: int| 0 <= i < m.len() ==> m[i] != sep,
        forall|i: int| 0 <= i < z.len() ==> z[i] != sep,
    ensures
        split(a + seq![sep] + m + seq![sep] + z, sep) == seq![a, m, z],
{
    lemma_split_single(a, sep);
    lemma_split_single(m, sep);
    lemma_split_single(z, sep);
    lemma_split_around(m, z, sep);
    lemma_split_around(a, m + seq![sep] + z, sep);
    assert(a + seq![sep] + m + seq![sep] + z == a + seq![sep] + (m + seq![sep] + z));
    assert(seq![a] + (seq![m] + seq![z]) == seq![a, m, z]);
}

/// A character pushed behind a text, and then more text, is the text and
/// then the character before the rest.
pub proof fn lemma_push_then_add(head: Seq<char>, c: char, tail: Seq<char>)
    ensures
        head.push(c) + tail == head + (seq![c] + tail),
{
    assert(head.push(c) + tail =~= head + (seq![c] + tail));
}

/// A blank line and three lines, each ended by a line feed, are a line feed
/// and the three lines, each ended by one.
pub proof fn lemma_unlines_block(x: Seq<char>, y: Seq<char>, z: Seq<char>)
    ensures
        unlines(seq![Seq::<char>::empty(), x, y, z]) == seq!['\n'] + (x + seq!['\n'] + y
            + seq!['\n'] + z + seq!['\n']),
{
    let none = Seq::<Seq<char>>::empty();
    let blank = Seq::<char>::empty();
    lemma_unlines_push(none, blank);
    lemma_unlines_push(seq![blank], x);
    lemma_unlines_push(seq![blank, x], y);
    lemma_unlines_push(seq![blank, x, y], z);
    assert(none.push(blank) == seq![blank]);
    assert(seq![blank].push(x) == seq![blank, x]);
    assert(seq![blank, x].push(y) == seq![blank, x, y]);
    assert(seq![blank, x, y].push(z) == seq![blank, x, y, z]);
    assert(blank.push('\n') + x.push('\n') + y.push('\n') + z.push('\n') =~= seq!['\n'] + (x
        + seq!['\n'] + y + seq!['\n'] + z + seq!['\n']));
}

/// One more line, ended by a line feed.
pub proof fn lemma_unlines_push(ls: Seq<Seq<char>>, l: Seq<char>)
    ensures
        unlines(ls.push(l)) == unlines(ls) + l.push('\n'),
        unlines(Seq::<Seq<char>>::empty()) == Seq::<char>::empty(),
{
    reveal(unlines);
    assert(ls.push(l).drop_last() == ls);
}

/// One more text behind at least one, with the separator between them.
pub proof fn lemma_join_push(ls: Seq<Seq<char>>, x: Seq<char>, sep: char)
    requires
        ls.len() >= 1,
    ensures
        join(ls.push(x), sep) == join(ls, sep).push(sep) + x,
{
    reveal(join);
    assert(ls.push(x).drop_last() == ls);
}

/// No text joins to nothing, and one text to itself.
pub proof fn lemma_join_small(x: Seq<char>, sep: char)
    ensures
        join(Seq::<Seq<char>>::empty(), sep) == Seq::<char>::empty(),
        join(seq![x], sep) == x,
{
    reveal(join);
}

} // verus!

//! Conversions between `str`/`String` and sequences of characters.
//!
//! The rest of the library states its contracts over `Seq<char>`, the view of
//! a string. These few functions are the only places where characters enter
//! and leave a Rust string.

use vstd::prelude::*;

verus! {

/// `String::push`: the string afterwards is the string before with `c`
/// appended.
#[verifier::external_body]
pub(crate) fn push_char(s: &mut String, c: char)
    ensures
        final(s)@ == old(s)@.push(c),
{
    s.push(c)
}

/// The characters of `s`, in order.
pub fn chars_of(s: &str) -> (out: Vec<char>)
    ensures
        out@ == s@,
{
    let mut out: Vec<char> = Vec::new();
    let it = s.chars();
    proof {
        vstd::string::axiom_spec_iter(s);
    }
    for c in iter: it
        invariant
            iter.seq() == s@,
            out@ == iter.seq().take(iter.index()),
    {
        out.push(c);
    }
    assert(out@ == s@.take(s@.len() as int));
    out
}

/// The string whose characters are `chars`, in order.
pub fn string_of(chars: &Vec<char>) -> (out: String)
    ensures
        out@ == chars@,
{
    let mut out = String::new();
    let mut i: usize = 0;
    while i < chars.len()
        invariant
            i <= chars.len(),
            out@ == chars@.take(i as int),
        decreases chars.len() - i,
    {
        push_char(&mut out, chars[i]);
        i += 1;
    }
    out
}

/// The views of `strings`, in order.
pub open spec fn texts(strings: Seq<String>) -> Seq<Seq<char>> {
    strings.map_values(|s: String| s@)
}

/// `parts` written one after the other with `sep` between neighbours.
pub open spec fn joined(parts: Seq<Seq<char>>, sep: Seq<char>) -> Seq<char>
    decreases parts.len(),
{
    if parts.len() == 0 {
        Seq::empty()
    } else if parts.len() == 1 {
        parts[0]
    } else {
        joined(parts.drop_last(), sep) + sep + parts.last()
    }
}

/// Joins the first `count` of `parts` with `sep` between neighbours.
pub fn join_first(parts: &Vec<String>, count: usize, sep: &str) -> (out: String)
    requires
        count <= parts@.len(),
    ensures
        out@ == joined(texts(parts@).take(count as int), sep@),
{
    let mut out = String::new();
    let mut i: usize = 0;
    while i < count
        invariant
            i <= count <= parts.len(),
            out@ == joined(texts(parts@).take(i as int), sep@),
        decreases count - i,
    {
        let ghost all = texts(parts@);
        assert(all.take(i + 1).drop_last() =~= all.take(i as int));
        assert(all.take(i + 1).last() == parts@[i as int]@);
        if i > 0 {
            out.append(sep);
        } else {
            assert(out@ + parts@[i as int]@ =~= parts@[i as int]@);
        }
        out.append(parts[i].as_str());
        i += 1;
    }
    out
}

/// Joins `parts` with `sep` between neighbours.
pub fn join(parts: &Vec<String>, sep: &str) -> (out: String)
    ensures
        out@ == joined(texts(parts@), sep@),
{
    assert(texts(parts@).take(parts@.len() as int) =~= texts(parts@));
    join_first(parts, parts.len(), sep)
}

/// Whether `c` is white space: one of the code points with the Unicode
/// property `White_Space`.
pub open spec fn is_whitespace(c: char) -> bool {
    let n = c as u32;
    ||| 0x09 <= n <= 0x0d
    ||| n == 0x20
    ||| n == 0x85
    ||| n == 0xa0
    ||| n == 0x1680
    ||| 0x2000 <= n <= 0x200a
    ||| n == 0x2028
    ||| n == 0x2029
    ||| n == 0x202f
    ||| n == 0x205f
    ||| n == 0x3000
}

/// Decides `is_whitespace`.
pub fn char_is_whitespace(c: char) -> (b: bool)
    ensures
        b == is_whitespace(c),
{
    let n: u32 = c as u32;
    (0x09 <= n && n <= 0x0d) || n == 0x20 || n == 0x85 || n == 0xa0 || n == 0x1680 || (0x2000 <= n
        && n <= 0x200a) || n == 0x2028 || n == 0x2029 || n == 0x202f || n == 0x205f || n == 0x3000
}

/// `s` without its leading white space.
pub open spec fn trim_start(s: Seq<char>) -> Seq<char>
    decreases s.len(),
{
    if s.len() > 0 && is_whitespace(s[0]) {
        trim_start(s.drop_first())
    } else {
        s
    }
}

/// `s` without its trailing white space.
pub open spec fn trim_end(s: Seq<char>) -> Seq<char>
    decreases s.len(),
{
    if s.len() > 0 && is_whitespace(s.last()) {
        trim_end(s.drop_last())
    } else {
        s
    }
}

/// `s` without its leading and trailing white space.
pub open spec fn trimmed(s: Seq<char>) -> Seq<char> {
    trim_end(trim_start(s))
}

/// Trims the part of `chars` between `from` and `to`: the bounds of what is
/// left of it.
pub fn trim_range(chars: &Vec<char>, from: usize, to: usize) -> (r: (usize, usize))
    requires
        from <= to <= chars@.len(),
    ensures
        from <= r.0 <= r.1 <= to,
        chars@.subrange(r.0 as int, r.1 as int) == trimmed(chars@.subrange(from as int, to as int)),
{
    let mut a: usize = from;
    while a < to && char_is_whitespace(chars[a])
        invariant
            from <= a <= to <= chars@.len(),
            trim_start(chars@.subrange(from as int, to as int)) == trim_start(
                chars@.subrange(a as int, to as int),
            ),
        decreases to - a,
    {
        assert(chars@.subrange(a as int, to as int).drop_first() =~= chars@.subrange(
            a + 1,
            to as int,
        ));
        a += 1;
    }
    let mut b: usize = to;
    while a < b && char_is_whitespace(chars[b - 1])
        invariant
            a <= b <= to <= chars@.len(),
            trim_end(chars@.subrange(a as int, to as int)) == trim_end(
                chars@.subrange(a as int, b as int),
            ),
        decreases b - a,
    {
        assert(chars@.subrange(a as int, b as int).drop_last() =~= chars@.subrange(
            a as int,
            b - 1,
        ));
        b -= 1;
    }
    (a, b)
}

/// The position of the first `c` in `s`; the length of `s` if there is none.
pub open spec fn first_index(s: Seq<char>, c: char) -> int
    decreases s.len(),
{
    if s.len() == 0 || s[0] == c {
        0
    } else {
        1 + first_index(s.drop_first(), c)
    }
}

/// The pieces of `s` between occurrences of `sep`. There is always at least
/// one piece; neighbouring separators enclose an empty piece.
pub open spec fn split_on(s: Seq<char>, sep: char) -> Seq<Seq<char>>
    decreases s.len(),
{
    let i = first_index(s, sep);
    if 0 <= i < s.len() {
        seq![s.take(i)] + split_on(s.skip(i + 1), sep)
    } else {
        seq![s]
    }
}

/// `first_index` points at the first `c`, or behind the end.
pub proof fn lemma_first_index(s: Seq<char>, c: char)
    ensures
        0 <= first_index(s, c) <= s.len(),
        first_index(s, c) < s.len() ==> s[first_index(s, c)] == c,
        forall|k: int| 0 <= k < first_index(s, c) ==> s[k] != c,
    decreases s.len(),
{
    if !(s.len() == 0 || s[0] == c) {
        let rest = s.drop_first();
        lemma_first_index(rest, c);
        assert forall|k: int| 0 <= k < first_index(s, c) implies s[k] != c by {
            if k > 0 {
                assert(s[k] == rest[k - 1]);
            }
        }
    }
}

/// A position with `c`, before which there is no `c`, is the `first_index`.
pub proof fn lemma_first_index_is(s: Seq<char>, c: char, i: int)
    requires
        0 <= i <= s.len(),
        i < s.len() ==> s[i] == c,
        forall|k: int| 0 <= k < i ==> s[k] != c,
    ensures
        first_index(s, c) == i,
{
    lemma_first_index(s, c);
}

/// The position of the first `c` at or behind `from`; the length of `chars` if
/// there is none.
pub fn find_from(chars: &Vec<char>, from: usize, c: char) -> (at: usize)
    requires
        from <= chars@.len(),
    ensures
        from <= at <= chars@.len(),
        at == from + first_index(chars@.skip(from as int), c),
{
    let mut at: usize = from;
    while at < chars.len() && chars[at] != c
        invariant
            from <= at <= chars@.len(),
            forall|k: int| from <= k < at ==> chars@[k] != c,
        decreases chars@.len() - at,
    {
        at += 1;
    }
    proof {
        lemma_first_index_is(chars@.skip(from as int), c, at - from);
    }
    at
}

/// The bounds of the pieces of `chars` between occurrences of `sep`.
pub fn split_ranges(chars: &Vec<char>, sep: char) -> (ranges: Vec<(usize, usize)>)
    ensures
        ranges@.len() == split_on(chars@, sep).len(),
        ranges@.len() >= 1,
        ranges@[0].0 == 0,
        ranges@[ranges@.len() - 1].1 == chars@.len(),
        forall|k: int| 0 <= k < ranges@.len() - 1 ==> (#[trigger] ranges@[k]).1 + 1 == ranges@[k + 1].0,
        forall|k: int|
            0 <= k < ranges@.len() ==> (#[trigger] ranges@[k]).0 <= ranges@[k].1 <= chars@.len()
                && chars@.subrange(ranges@[k].0 as int, ranges@[k].1 as int) == split_on(
                chars@,
                sep,
            )[k],
{
    let mut ranges: Vec<(usize, usize)> = Vec::new();
    let mut start: usize = 0;
    assert(chars@.skip(0) =~= chars@);
    assert(pieces(chars@, ranges@) + split_on(chars@, sep) =~= split_on(chars@, sep));
    loop
        invariant_except_break
            start <= chars@.len(),
            split_on(chars@, sep) == pieces(chars@, ranges@) + split_on(
                chars@.skip(start as int),
                sep,
            ),
            ranges@.len() == 0 ==> start == 0,
            ranges@.len() > 0 ==> ranges@[ranges@.len() - 1].1 + 1 == start,
        invariant
            ranges@.len() > 0 ==> ranges@[0].0 == 0,
            forall|k: int|
                0 <= k < ranges@.len() - 1 ==> (#[trigger] ranges@[k]).1 + 1 == ranges@[k + 1].0,
            forall|k: int|
                0 <= k < ranges@.len() ==> (#[trigger] ranges@[k]).0 <= ranges@[k].1 <= chars@.len(),
        ensures
            split_on(chars@, sep) == pieces(chars@, ranges@),
            ranges@.len() >= 1,
            ranges@[ranges@.len() - 1].1 == chars@.len(),
        decreases chars@.len() - start,
    {
        let ghost before = ranges@;
        let ghost rest = chars@.skip(start as int);
        let at = find_from(chars, start, sep);
        ranges.push((start, at));
        assert(pieces(chars@, ranges@) =~= pieces(chars@, before).push(
            chars@.subrange(start as int, at as int),
        ));
        assert(rest.take(at - start) =~= chars@.subrange(start as int, at as int));
        if at == chars.len() {
            assert(rest.take(at - start) =~= rest);
            assert(pieces(chars@, before) + seq![rest] =~= pieces(chars@, ranges@));
            break;
        }
        assert(rest.skip(at - start + 1) =~= chars@.skip(at + 1));
        assert(pieces(chars@, before) + (seq![rest.take(at - start)] + split_on(
            chars@.skip(at + 1),
            sep,
        )) =~= pieces(chars@, ranges@) + split_on(chars@.skip(at + 1), sep));
        start = at + 1;
    }
    assert forall|k: int| 0 <= k < ranges@.len() implies chars@.subrange(
        (#[trigger] ranges@[k]).0 as int,
        ranges@[k].1 as int,
    ) == split_on(chars@, sep)[k] by {
        assert(pieces(chars@, ranges@)[k] == chars@.subrange(
            ranges@[k].0 as int,
            ranges@[k].1 as int,
        ));
    }
    ranges
}

/// The parts of `s` that `ranges` bound, in order.
pub open spec fn pieces(s: Seq<char>, ranges: Seq<(usize, usize)>) -> Seq<Seq<char>> {
    ranges.map_values(|r: (usize, usize)| s.subrange(r.0 as int, r.1 as int))
}

/// The part of `chars` between `from` and `to`, copied.
pub fn slice_of(chars: &Vec<char>, from: usize, to: usize) -> (part: Vec<char>)
    requires
        from <= to <= chars@.len(),
    ensures
        part@ == chars@.subrange(from as int, to as int),
{
    let mut part: Vec<char> = Vec::new();
    let mut i: usize = from;
    while i < to
        invariant
            from <= i <= to <= chars@.len(),
            part@ == chars@.subrange(from as int, i as int),
        decreases to - i,
    {
        part.push(chars[i]);
        assert(part@ =~= chars@.subrange(from as int, i + 1));
        i += 1;
    }
    part
}

/// Whether `a` and `b` hold the same characters.
pub fn same_chars(a: &Vec<char>, b: &Vec<char>) -> (same: bool)
    ensures
        same == (a@ == b@),
{
    if a.len() != b.len() {
        return false;
    }
    let mut i: usize = 0;
    while i < a.len()
        invariant
            i <= a@.len(),
            a@.len() == b@.len(),
            forall|k: int| 0 <= k < i ==> a@[k] == b@[k],
        decreases a@.len() - i,
    {
        if a[i] != b[i] {
            return false;
        }
        i += 1;
    }
    assert(a@ =~= b@);
    true
}

/// Whether `a` comes before `b` in the order of strings: at the first place
/// where they differ `a` has the smaller code point, or `a` ends first.
pub open spec fn text_less(a: Seq<char>, b: Seq<char>) -> bool
    decreases a.len(),
{
    if b.len() == 0 {
        false
    } else if a.len() == 0 {
        true
    } else if a[0] != b[0] {
        (a[0] as u32) < (b[0] as u32)
    } else {
        text_less(a.drop_first(), b.drop_first())
    }
}

/// Decides `text_less`.
pub fn chars_less(a: &Vec<char>, b: &Vec<char>) -> (less: bool)
    ensures
        less == text_less(a@, b@),
{
    let mut i: usize = 0;
    assert(a@.skip(0) =~= a@ && b@.skip(0) =~= b@);
    loop
        invariant
            i <= a@.len(),
            i <= b@.len(),
            text_less(a@, b@) == text_less(a@.skip(i as int), b@.skip(i as int)),
        decreases a@.len() - i,
    {
        let ghost x = a@.skip(i as int);
        let ghost y = b@.skip(i as int);
        if i == b.len() {
            return false;
        }
        if i == a.len() {
            return true;
        }
        assert(x[0] == a@[i as int] && y[0] == b@[i as int]);
        if a[i] != b[i] {
            return (a[i] as u32) < (b[i] as u32);
        }
        assert(x.drop_first() =~= a@.skip(i + 1));
        assert(y.drop_first() =~= b@.skip(i + 1));
        i += 1;
    }
}

/// The order of strings is a strict total order.
pub proof fn lemma_text_order(a: Seq<char>, b: Seq<char>, c: Seq<char>)
    ensures
        !text_less(a, a),
        text_less(a, b) || text_less(b, a) || a == b,
        text_less(a, b) ==> !text_less(b, a),
        text_less(a, b) && text_less(b, c) ==> text_less(a, c),
    decreases a.len(),
{
    if a.len() > 0 {
        lemma_text_order(a.drop_first(), a.drop_first(), a.drop_first());
        if b.len() > 0 {
            if c.len() > 0 {
                lemma_text_order(a.drop_first(), b.drop_first(), c.drop_first());
            } else {
                lemma_text_order(a.drop_first(), b.drop_first(), c);
            }
            if a[0] == b[0] {
                if a.drop_first() == b.drop_first() {
                    assert(a =~= seq![a[0]] + a.drop_first());
                    assert(b =~= seq![b[0]] + b.drop_first());
                }
            } else {
                vstd::utf8::char_u32_cast(a[0], a[0] as u32);
                vstd::utf8::char_u32_cast(b[0], b[0] as u32);
            }
        }
    } else {
        assert(b.len() == 0 ==> a =~= b);
    }
}

/// Appends the part of `from` between `start` and `end` to `out`.
pub fn push_range(out: &mut Vec<char>, from: &Vec<char>, start: usize, end: usize)
    requires
        start <= end <= from@.len(),
    ensures
        final(out)@ == old(out)@ + from@.subrange(start as int, end as int),
{
    let mut i: usize = start;
    assert(out@ =~= old(out)@ + from@.subrange(start as int, start as int));
    while i < end
        invariant
            start <= i <= end <= from@.len(),
            out@ == old(out)@ + from@.subrange(start as int, i as int),
        decreases end - i,
    {
        out.push(from[i]);
        assert(out@ =~= old(out)@ + from@.subrange(start as int, i + 1));
        i += 1;
    }
}

/// Whether `s` begins with `prefix`.
pub open spec fn starts_with(s: Seq<char>, prefix: Seq<char>) -> bool {
    s.len() >= prefix.len() && s.take(prefix.len() as int) == prefix
}

/// Whether the part of `chars` from `at` on begins with `prefix`.
pub fn starts_with_at(chars: &Vec<char>, at: usize, prefix: &Vec<char>) -> (b: bool)
    requires
        at <= chars@.len(),
    ensures
        b == starts_with(chars@.skip(at as int), prefix@),
{
    let ghost rest = chars@.skip(at as int);
    if chars.len() - at < prefix.len() {
        return false;
    }
    let mut i: usize = 0;
    while i < prefix.len()
        invariant
            i <= prefix@.len(),
            at + prefix@.len() <= chars@.len() <= usize::MAX,
            rest == chars@.skip(at as int),
            forall|k: int| 0 <= k < i ==> rest[k] == prefix@[k],
        decreases prefix@.len() - i,
    {
        assert(rest[i as int] == chars@[at + i]);
        if chars[at + i] != prefix[i] {
            assert(rest.take(prefix@.len() as int)[i as int] != prefix@[i as int]);
            return false;
        }
        i += 1;
    }
    assert(rest.take(prefix@.len() as int) =~= prefix@);
    true
}

/// `s` with every occurrence of `pattern` replaced by `to`, the occurrences
/// taken from the left and not overlapping. The empty pattern occurs in front
/// of every character and at the end.
pub open spec fn replaced_all(s: Seq<char>, pattern: Seq<char>, to: Seq<char>) -> Seq<char>
    decreases s.len(),
{
    if pattern.len() == 0 {
        if s.len() == 0 {
            to
        } else {
            to + seq![s[0]] + replaced_all(s.drop_first(), pattern, to)
        }
    } else if starts_with(s, pattern) {
        to + replaced_all(s.skip(pattern.len() as int), pattern, to)
    } else if s.len() == 0 {
        s
    } else {
        seq![s[0]] + replaced_all(s.drop_first(), pattern, to)
    }
}

/// `s` with the first occurrence of `pattern` replaced by `to`.
pub open spec fn replaced_first(s: Seq<char>, pattern: Seq<char>, to: Seq<char>) -> Seq<char>
    decreases s.len(),
{
    if starts_with(s, pattern) {
        to + s.skip(pattern.len() as int)
    } else if s.len() == 0 {
        s
    } else {
        seq![s[0]] + replaced_first(s.drop_first(), pattern, to)
    }
}

/// Replaces every occurrence of `pattern` in `s` by `to`.
pub fn replace_all(s: &Vec<char>, pattern: &Vec<char>, to: &Vec<char>) -> (out: Vec<char>)
    ensures
        out@ == replaced_all(s@, pattern@, to@),
{
    let mut out: Vec<char> = Vec::new();
    let mut i: usize = 0;
    let n: usize = s.len();
    assert(s@.skip(0) =~= s@);
    assert(out@ + replaced_all(s@, pattern@, to@) =~= replaced_all(s@, pattern@, to@));
    loop
        invariant_except_break
            i <= s@.len() == n,
            replaced_all(s@, pattern@, to@) == out@ + replaced_all(
                s@.skip(i as int),
                pattern@,
                to@,
            ),
        ensures
            out@ == replaced_all(s@, pattern@, to@),
        decreases s@.len() - i,
    {
        let ghost rest = s@.skip(i as int);
        let ghost before = out@;
        if pattern.len() == 0 {
            push_range(&mut out, to, 0, to.len());
            assert(to@.subrange(0, to@.len() as int) =~= to@);
            if i == s.len() {
                assert(before + to@ =~= out@);
                break;
            }
            out.push(s[i]);
            assert(rest.drop_first() =~= s@.skip(i + 1));
            assert(before + (to@ + seq![rest[0]] + replaced_all(rest.drop_first(), pattern@, to@))
                =~= out@ + replaced_all(s@.skip(i + 1), pattern@, to@));
            i += 1;
        } else if starts_with_at(s, i, pattern) {
            assert(rest.len() == s@.len() - i && s@.len() <= usize::MAX);
            push_range(&mut out, to, 0, to.len());
            assert(to@.subrange(0, to@.len() as int) =~= to@);
            assert(rest.skip(pattern@.len() as int) =~= s@.skip(i + pattern@.len()));
            assert(before + (to@ + replaced_all(rest.skip(pattern@.len() as int), pattern@, to@))
                =~= out@ + replaced_all(s@.skip(i + pattern@.len()), pattern@, to@));
            i += pattern.len();
        } else if i == s.len() {
            assert(before + rest =~= out@);
            break;
        } else {
            out.push(s[i]);
            assert(rest.drop_first() =~= s@.skip(i + 1));
            assert(before + (seq![rest[0]] + replaced_all(rest.drop_first(), pattern@, to@))
                =~= out@ + replaced_all(s@.skip(i + 1), pattern@, to@));
            i += 1;
        }
    }
    out
}

/// Replaces the first occurrence of `pattern` in `s` by `to`.
pub fn replace_first(s: &Vec<char>, pattern: &Vec<char>, to: &Vec<char>) -> (out: Vec<char>)
    ensures
        out@ == replaced_first(s@, pattern@, to@),
{
    let mut out: Vec<char> = Vec::new();
    let mut i: usize = 0;
    let n: usize = s.len();
    assert(s@.skip(0) =~= s@);
    assert(out@ + replaced_first(s@, pattern@, to@) =~= replaced_first(s@, pattern@, to@));
    loop
        invariant_except_break
            i <= s@.len() == n,
            replaced_first(s@, pattern@, to@) == out@ + replaced_first(
                s@.skip(i as int),
                pattern@,
                to@,
            ),
        ensures
            out@ == replaced_first(s@, pattern@, to@),
        decreases s@.len() - i,
    {
        let ghost rest = s@.skip(i as int);
        let ghost before = out@;
        if starts_with_at(s, i, pattern) {
            assert(rest.len() == s@.len() - i && s@.len() <= usize::MAX);
            push_range(&mut out, to, 0, to.len());
            assert(to@.subrange(0, to@.len() as int) =~= to@);
            push_range(&mut out, s, i + pattern.len(), s.len());
            assert(rest.skip(pattern@.len() as int) =~= s@.subrange(
                i + pattern@.len(),
                s@.len() as int,
            ));
            assert(before + (to@ + rest.skip(pattern@.len() as int)) =~= out@);
            break;
        } else if i == s.len() {
            assert(before + rest =~= out@);
            break;
        } else {
            out.push(s[i]);
            assert(rest.drop_first() =~= s@.skip(i + 1));
            assert(before + (seq![rest[0]] + replaced_first(rest.drop_first(), pattern@, to@))
                =~= out@ + replaced_first(s@.skip(i + 1), pattern@, to@));
            i += 1;
        }
    }
    out
}

/// The position of the first occurrence of `pattern` in `s`.
pub open spec fn find_sub(s: Seq<char>, pattern: Seq<char>) -> Option<int>
    decreases s.len(),
{
    if starts_with(s, pattern) {
        Some(0)
    } else if s.len() == 0 {
        None
    } else {
        match find_sub(s.drop_first(), pattern) {
            Some(i) => Some(i + 1),
            None => None,
        }
    }
}

/// The position of the first occurrence of `pattern` in `chars` at or behind
/// `from`.
pub fn find_sub_from(chars: &Vec<char>, from: usize, pattern: &Vec<char>) -> (at: Option<usize>)
    requires
        from <= chars@.len(),
    ensures
        match at {
            Some(i) => find_sub(chars@.skip(from as int), pattern@) == Some(i - from) && from <= i
                && i + pattern@.len() <= chars@.len(),
            None => find_sub(chars@.skip(from as int), pattern@) is None,
        },
{
    let n: usize = chars.len();
    let mut i: usize = from;
    loop
        invariant
            from <= i <= chars@.len() == n,
            match find_sub(chars@.skip(i as int), pattern@) {
                Some(k) => find_sub(chars@.skip(from as int), pattern@) == Some(k + i - from),
                None => find_sub(chars@.skip(from as int), pattern@) is None,
            },
        decreases chars@.len() - i,
    {
        let ghost rest = chars@.skip(i as int);
        if starts_with_at(chars, i, pattern) {
            assert(rest.len() == n - i);
            return Some(i);
        }
        if i == n {
            return None;
        }
        assert(rest.drop_first() =~= chars@.skip(i + 1));
        i += 1;
    }
}

/// The lines of `s`. A line ends at a line feed; the carriage return in front
/// of that line feed does not belong to the line. What stands behind the last
/// line feed is a line if it is not empty.
pub open spec fn lines_of(s: Seq<char>) -> Seq<Seq<char>>
    decreases s.len(),
{
    let i = first_index(s, '\n');
    if s.len() == 0 {
        Seq::empty()
    } else if 0 <= i < s.len() {
        seq![without_cr(s.take(i))] + lines_of(s.skip(i + 1))
    } else {
        seq![s]
    }
}

/// `line` without the carriage return at its end, if it has one.
pub open spec fn without_cr(line: Seq<char>) -> Seq<char> {
    if line.len() > 0 && line.last() == '\r' {
        line.drop_last()
    } else {
        line
    }
}

/// The bounds of the lines of `chars`.
pub fn line_ranges(chars: &Vec<char>) -> (ranges: Vec<(usize, usize)>)
    ensures
        pieces(chars@, ranges@) == lines_of(chars@),
        forall|k: int|
            0 <= k < ranges@.len() ==> (#[trigger] ranges@[k]).0 <= ranges@[k].1 <= chars@.len(),
{
    let n: usize = chars.len();
    let mut ranges: Vec<(usize, usize)> = Vec::new();
    let mut start: usize = 0;
    assert(chars@.skip(0) =~= chars@);
    assert(pieces(chars@, ranges@) + lines_of(chars@) =~= lines_of(chars@));
    while start < n
        invariant
            start <= chars@.len() == n,
            lines_of(chars@) == pieces(chars@, ranges@) + lines_of(chars@.skip(start as int)),
            forall|k: int|
                0 <= k < ranges@.len() ==> (#[trigger] ranges@[k]).0 <= ranges@[k].1 <= chars@.len(),
        decreases n - start,
    {
        let ghost before = ranges@;
        let ghost rest = chars@.skip(start as int);
        let at = find_from(chars, start, '\n');
        assert(rest.take(at - start) =~= chars@.subrange(start as int, at as int));
        if at == n {
            ranges.push((start, n));
            assert(rest.take(at - start) =~= rest);
            assert(pieces(chars@, ranges@) =~= pieces(chars@, before).push(rest));
            assert(chars@.skip(n as int) =~= Seq::<char>::empty());
            assert(pieces(chars@, before) + seq![rest] =~= pieces(chars@, ranges@) + lines_of(
                chars@.skip(n as int),
            ));
            start = n;
        } else {
            let end: usize = if at > start && chars[at - 1] == '\r' {
                at - 1
            } else {
                at
            };
            let ghost line = rest.take(at - start);
            assert(line.len() > 0 ==> line.last() == chars@[at - 1]);
            assert(without_cr(line) =~= chars@.subrange(start as int, end as int));
            ranges.push((start, end));
            assert(pieces(chars@, ranges@) =~= pieces(chars@, before).push(without_cr(line)));
            assert(rest.skip(at - start + 1) =~= chars@.skip(at + 1));
            assert(pieces(chars@, before) + (seq![without_cr(line)] + lines_of(chars@.skip(at + 1)))
                =~= pieces(chars@, ranges@) + lines_of(chars@.skip(at + 1)));
            start = at + 1;
        }
    }
    assert(chars@.skip(n as int) =~= Seq::<char>::empty());
    assert(pieces(chars@, ranges@) + Seq::<Seq<char>>::empty() =~= pieces(chars@, ranges@));
    ranges
}

} // verus!

//! Text primitives over sequences of characters.
//!
//! Strings are modelled as `Seq<char>`.  The functions here work on character
//! vectors and say exactly which characters come out.

use vstd::prelude::*;
use vstd::utf8::{decode_utf8, encode_utf8, is_ascii_chars, valid_utf8};

use crate::seqs::views;

verus! {

/// `String::push` appends one character at the end of the string.
pub assume_specification[ String::push ](s: &mut String, c: char)
    ensures
        final(s)@ == old(s)@.push(c),
;

/// The characters of `s`, in order.
pub fn chars_of(s: &str) -> (r: Vec<char>)
    ensures
        r@ == s@,
{
    let mut r: Vec<char> = Vec::new();
    for c in it: s.chars()
        invariant
            it.seq() == s@,
            r@ == s@.take(it.index() as int),
    {
        assert(s@.take(it.index() + 1) =~= s@.take(it.index() as int).push(c));
        r.push(c);
    }
    assert(s@.take(s@.len() as int) =~= s@);
    r
}

/// The string made of the characters `v[from..to]`.
pub fn string_of_range(v: &Vec<char>, from: usize, to: usize) -> (r: String)
    requires
        from <= to <= v@.len(),
    ensures
        r@ == v@.subrange(from as int, to as int),
{
    let mut r = String::new();
    let mut i: usize = from;
    while i < to
        invariant
            from <= i <= to <= v@.len(),
            r@ == v@.subrange(from as int, i as int),
        decreases to - i,
    {
        r.push(v[i]);
        assert(v@.subrange(from as int, i + 1) =~= v@.subrange(from as int, i as int).push(
            v@[i as int],
        ));
        i += 1;
    }
    r
}

/// The string made of all the characters of `v`.
pub fn string_of(v: &Vec<char>) -> (r: String)
    ensures
        r@ == v@,
{
    let r = string_of_range(v, 0, v.len());
    assert(v@.subrange(0, v@.len() as int) =~= v@);
    r
}

/// Whether two strings hold the same characters.
pub fn text_eq(a: &str, b: &str) -> (r: bool)
    ensures
        r == (a@ == b@),
{
    let x = chars_of(a);
    let y = chars_of(b);
    if x.len() != y.len() {
        return false;
    }
    let mut i: usize = 0;
    while i < x.len()
        invariant
            i <= x@.len(),
            x@.len() == y@.len(),
            x@ == a@,
            y@ == b@,
            forall|k: int| 0 <= k < i ==> x@[k] == y@[k],
        decreases x.len() - i,
    {
        if x[i] != y[i] {
            assert(a@[i as int] != b@[i as int]);
            return false;
        }
        i += 1;
    }
    assert(a@ =~= b@);
    true
}

// ---------------------------------------------------------------------
// Searching

/// `pat` stands in `s` at position `i`.
pub open spec fn occurs_at(s: Seq<char>, pat: Seq<char>, i: int) -> bool {
    &&& 0 <= i
    &&& i + pat.len() <= s.len()
    &&& s.subrange(i, i + pat.len()) == pat
}

/// `pat` stands somewhere in `s`.
pub open spec fn has_text(s: Seq<char>, pat: Seq<char>) -> bool {
    exists|i: int| occurs_at(s, pat, i)
}

/// `s` begins with `pat`.
pub open spec fn begins_with(s: Seq<char>, pat: Seq<char>) -> bool {
    occurs_at(s, pat, 0)
}

/// What follows `pat` in a text that begins with it.
pub open spec fn after_prefix(s: Seq<char>, pat: Seq<char>) -> Option<Seq<char>> {
    if begins_with(s, pat) {
        Some(s.skip(pat.len() as int))
    } else {
        None
    }
}

/// What follows a prefix is what was put behind it.
pub proof fn lemma_after_own_prefix(prefix: Seq<char>, rest: Seq<char>)
    ensures
        after_prefix(prefix + rest, prefix) == Some(rest),
{
    assert((prefix + rest).subrange(0, prefix.len() as int) =~= prefix);
    assert((prefix + rest).skip(prefix.len() as int) =~= rest);
}

/// Whether `pat` stands in `s` at position `i`.
pub fn matches_at(s: &Vec<char>, pat: &Vec<char>, i: usize) -> (r: bool)
    requires
        i <= s@.len(),
    ensures
        r == occurs_at(s@, pat@, i as int),
{
    if s.len() - i < pat.len() {
        return false;
    }
    let mut k: usize = 0;
    while k < pat.len()
        invariant
            k <= pat@.len(),
            i + pat.len() <= s.len(),
            forall|j: int| 0 <= j < k ==> s@[i + j] == pat@[j],
        decreases pat.len() - k,
    {
        if s[i + k] != pat[k] {
            assert(s@.subrange(i as int, i + pat@.len())[k as int] != pat@[k as int]);
            return false;
        }
        k += 1;
    }
    assert(s@.subrange(i as int, i + pat@.len()) =~= pat@);
    true
}

/// The first position at which `pat` stands in `s`.
pub fn find_text(s: &Vec<char>, pat: &Vec<char>) -> (r: Option<usize>)
    ensures
        match r {
            Some(i) => occurs_at(s@, pat@, i as int) && forall|j: int|
                0 <= j < i ==> !occurs_at(s@, pat@, j),
            None => !has_text(s@, pat@),
        },
{
    let mut i: usize = 0;
    while i < s.len()
        invariant
            i <= s@.len(),
            forall|j: int| 0 <= j < i ==> !occurs_at(s@, pat@, j),
        decreases s.len() - i,
    {
        if matches_at(s, pat, i) {
            return Some(i);
        }
        i += 1;
    }
    if matches_at(s, pat, i) {
        Some(i)
    } else {
        None
    }
}

/// Whether `pat` stands somewhere in `s`.
pub fn contains_text(s: &Vec<char>, pat: &str) -> (r: bool)
    ensures
        r == has_text(s@, pat@),
{
    find_text(s, &chars_of(pat)).is_some()
}

/// Whether `s` begins with `pat`.
pub fn starts_with(s: &str, pat: &str) -> (r: bool)
    ensures
        r == begins_with(s@, pat@),
{
    matches_at(&chars_of(s), &chars_of(pat), 0)
}

/// What follows `pat` in a text that begins with it.
pub fn strip_prefix(s: &str, pat: &str) -> (r: Option<String>)
    ensures
        match after_prefix(s@, pat@) {
            Some(rest) => r is Some && r->0@ == rest,
            None => r is None,
        },
{
    let c = chars_of(s);
    let p = chars_of(pat);
    if matches_at(&c, &p, 0) {
        Some(string_of_range(&c, p.len(), c.len()))
    } else {
        None
    }
}

// ---------------------------------------------------------------------
// Replacing

/// `s` with every occurrence of `from` replaced by `to`, occurrences being
/// taken from left to right and without overlap.
pub open spec fn replace_all(s: Seq<char>, from: Seq<char>, to: Seq<char>) -> Seq<char>
    decreases s.len(),
{
    if from.len() == 0 || s.len() == 0 {
        s
    } else if begins_with(s, from) {
        to + replace_all(s.skip(from.len() as int), from, to)
    } else {
        seq![s[0]] + replace_all(s.skip(1), from, to)
    }
}

/// `s` with every occurrence of `from` replaced by `to`.
pub fn replace_text(s: &Vec<char>, from: &str, to: &str) -> (r: Vec<char>)
    requires
        from@.len() > 0,
    ensures
        r@ == replace_all(s@, from@, to@),
{
    let f = chars_of(from);
    let t = chars_of(to);
    let mut out: Vec<char> = Vec::new();
    let mut i: usize = 0;
    assert(s@.skip(0) =~= s@);
    while i < s.len()
        invariant
            i <= s@.len(),
            f@ == from@,
            t@ == to@,
            f@.len() > 0,
            replace_all(s@, from@, to@) =~= out@ + replace_all(s@.skip(i as int), from@, to@),
        decreases s.len() - i,
    {
        let ghost rest = s@.skip(i as int);
        if matches_at(s, &f, i) {
            assert(rest.subrange(0, f@.len() as int) =~= s@.subrange(i as int, i + f@.len()));
            assert(rest.skip(f@.len() as int) =~= s@.skip(i + f@.len()));
            let ghost before = out@;
            append_chars(&mut out, &t);
            assert(out@ + replace_all(s@.skip(i + f@.len()), from@, to@) =~= before + replace_all(
                rest,
                from@,
                to@,
            ));
            i += f.len();
        } else {
            assert(!begins_with(rest, from@)) by {
                if begins_with(rest, from@) {
                    assert(rest.subrange(0, f@.len() as int) =~= s@.subrange(
                        i as int,
                        i + f@.len(),
                    ));
                }
            }
            assert(rest.skip(1) =~= s@.skip(i + 1));
            out.push(s[i]);
            i += 1;
        }
    }
    assert(s@.skip(i as int) =~= Seq::<char>::empty());
    out
}

/// Appends the characters of `tail`.
pub fn append_chars(out: &mut Vec<char>, tail: &Vec<char>)
    ensures
        final(out)@ == old(out)@ + tail@,
{
    let mut i: usize = 0;
    while i < tail.len()
        invariant
            i <= tail@.len(),
            out@ == old(out)@ + tail@.take(i as int),
        decreases tail.len() - i,
    {
        out.push(tail[i]);
        assert(tail@.take(i + 1) =~= tail@.take(i as int).push(tail@[i as int]));
        i += 1;
    }
    assert(tail@.take(tail@.len() as int) =~= tail@);
}

/// A text in which `from` does not occur is left as it is.
pub proof fn lemma_replace_absent(s: Seq<char>, from: Seq<char>, to: Seq<char>)
    requires
        !has_text(s, from),
    ensures
        replace_all(s, from, to) == s,
    decreases s.len(),
{
    if from.len() > 0 && s.len() > 0 {
        assert(!occurs_at(s, from, 0));
        assert forall|i: int| !occurs_at(s.skip(1), from, i) by {
            if occurs_at(s.skip(1), from, i) {
                assert(s.subrange(i + 1, i + 1 + from.len()) =~= s.skip(1).subrange(
                    i,
                    i + from.len(),
                ));
                assert(occurs_at(s, from, i + 1));
            }
        }
        lemma_replace_absent(s.skip(1), from, to);
        assert(seq![s[0]] + s.skip(1) =~= s);
    }
}

/// Replacing by something shorter never lengthens a text, and shortens it
/// wherever there is an occurrence.
pub proof fn lemma_replace_shortens(s: Seq<char>, from: Seq<char>, to: Seq<char>)
    requires
        to.len() < from.len(),
    ensures
        replace_all(s, from, to).len() <= s.len(),
        has_text(s, from) ==> replace_all(s, from, to).len() < s.len(),
    decreases s.len(),
{
    if s.len() > 0 {
        if begins_with(s, from) {
            lemma_replace_shortens(s.skip(from.len() as int), from, to);
        } else {
            lemma_replace_shortens(s.skip(1), from, to);
            if has_text(s, from) {
                let i = choose|i: int| occurs_at(s, from, i);
                assert(s.skip(1).subrange(i - 1, i - 1 + from.len()) =~= s.subrange(
                    i,
                    i + from.len(),
                ));
                assert(occurs_at(s.skip(1), from, i - 1));
            }
        }
    } else {
        assert(!has_text(s, from));
    }
}

// ---------------------------------------------------------------------
// White space

/// The characters with the Unicode `White_Space` property.
pub open spec fn is_space(c: char) -> bool {
    ||| '\u{9}' <= c <= '\u{d}'
    ||| c == '\u{20}'
    ||| c == '\u{85}'
    ||| c == '\u{a0}'
    ||| c == '\u{1680}'
    ||| '\u{2000}' <= c <= '\u{200a}'
    ||| c == '\u{2028}'
    ||| c == '\u{2029}'
    ||| c == '\u{202f}'
    ||| c == '\u{205f}'
    ||| c == '\u{3000}'
}

/// Whether `c` is white space.
pub fn space(c: char) -> (r: bool)
    ensures
        r == is_space(c),
{
    ('\u{9}' <= c && c <= '\u{d}') || c == '\u{20}' || c == '\u{85}' || c == '\u{a0}' || c
        == '\u{1680}' || ('\u{2000}' <= c && c <= '\u{200a}') || c == '\u{2028}' || c == '\u{2029}'
        || c == '\u{202f}' || c == '\u{205f}' || c == '\u{3000}'
}

/// `s` without the white space at its end.
pub open spec fn trim_end(s: Seq<char>) -> Seq<char>
    decreases s.len(),
{
    if s.len() > 0 && is_space(s.last()) {
        trim_end(s.drop_last())
    } else {
        s
    }
}

/// `s` without the white space at its start.
pub open spec fn trim_start(s: Seq<char>) -> Seq<char>
    decreases s.len(),
{
    if s.len() > 0 && is_space(s[0]) {
        trim_start(s.skip(1))
    } else {
        s
    }
}

/// `s` without the white space at either end.
pub open spec fn trim(s: Seq<char>) -> Seq<char> {
    trim_start(trim_end(s))
}

/// `s` without the white space at its end.
pub fn trim_text_end(s: &str) -> (r: String)
    ensures
        r@ == trim_end(s@),
{
    let c = chars_of(s);
    let mut n: usize = c.len();
    assert(c@.take(n as int) =~= s@);
    while n > 0 && space(c[n - 1])
        invariant
            n <= c@.len(),
            c@ == s@,
            trim_end(s@) == trim_end(s@.take(n as int)),
        decreases n,
    {
        assert(s@.take(n as int).drop_last() =~= s@.take(n - 1));
        n -= 1;
    }
    assert(c@.subrange(0, n as int) =~= s@.take(n as int));
    string_of_range(&c, 0, n)
}

/// `s` without the white space at either end.
pub fn trim_text(s: &str) -> (r: String)
    ensures
        r@ == trim(s@),
{
    let t = trim_text_end(s);
    let c = chars_of(t.as_str());
    let mut i: usize = 0;
    assert(c@.skip(0) =~= t@);
    while i < c.len() && space(c[i])
        invariant
            i <= c@.len(),
            c@ == t@,
            trim_start(t@) == trim_start(t@.skip(i as int)),
        decreases c.len() - i,
    {
        assert(t@.skip(i as int).skip(1) =~= t@.skip(i + 1));
        i += 1;
    }
    assert(c@.subrange(i as int, c@.len() as int) =~= t@.skip(i as int));
    string_of_range(&c, i, c.len())
}

/// `s` without the `last` characters at its end.
pub open spec fn trim_end_of(s: Seq<char>, last: char) -> Seq<char>
    decreases s.len(),
{
    if s.len() > 0 && s.last() == last {
        trim_end_of(s.drop_last(), last)
    } else {
        s
    }
}

/// `s` without the `last` characters at its end.
pub fn trim_end_matches(s: &str, last: char) -> (r: String)
    ensures
        r@ == trim_end_of(s@, last),
{
    let c = chars_of(s);
    let mut n: usize = c.len();
    assert(c@.take(n as int) =~= s@);
    while n > 0 && c[n - 1] == last
        invariant
            n <= c@.len(),
            c@ == s@,
            trim_end_of(s@, last) == trim_end_of(s@.take(n as int), last),
        decreases n,
    {
        assert(s@.take(n as int).drop_last() =~= s@.take(n - 1));
        n -= 1;
    }
    assert(c@.subrange(0, n as int) =~= s@.take(n as int));
    string_of_range(&c, 0, n)
}

// ---------------------------------------------------------------------
// Lines

/// The length of the first line of `s`, its newline counted.
pub open spec fn line_len(s: Seq<char>) -> nat
    decreases s.len(),
{
    if s.len() == 0 {
        0
    } else if s[0] == '\n' {
        1
    } else {
        1 + line_len(s.skip(1))
    }
}

/// A first line is not empty and no longer than the text.
pub proof fn lemma_line_len(s: Seq<char>)
    ensures
        line_len(s) <= s.len(),
        s.len() > 0 ==> line_len(s) > 0,
    decreases s.len(),
{
    if s.len() > 0 && s[0] != '\n' {
        lemma_line_len(s.skip(1));
    }
}

/// The lines of `s`, each with the newline that ends it.
pub open spec fn split_lines(s: Seq<char>) -> Seq<Seq<char>>
    decreases s.len(),
{
    if s.len() == 0 {
        Seq::empty()
    } else {
        proof {
            lemma_line_len(s);
        }
        let n = line_len(s) as int;
        seq![s.take(n)] + split_lines(s.skip(n))
    }
}

/// A line without its line ending, `\n` or `\r\n`.
pub open spec fn chomp(line: Seq<char>) -> Seq<char> {
    if line.len() > 0 && line.last() == '\n' {
        let body = line.drop_last();
        if body.len() > 0 && body.last() == '\r' {
            body.drop_last()
        } else {
            body
        }
    } else {
        line
    }
}

/// The lines of `s` without their line endings.
pub open spec fn lines(s: Seq<char>) -> Seq<Seq<char>> {
    split_lines(s).map_values(|l: Seq<char>| chomp(l))
}

/// The lines of `s`, each with the newline that ends it.
pub fn split_inclusive_lines(s: &str) -> (r: Vec<String>)
    ensures
        views(r@) == split_lines(s@),
{
    let c = chars_of(s);
    let mut out: Vec<String> = Vec::new();
    let mut start: usize = 0;
    assert(c@.skip(0) =~= s@);
    while start < c.len()
        invariant
            start <= c@.len(),
            c@ == s@,
            split_lines(s@) =~= views(out@) + split_lines(s@.skip(start as int)),
        decreases c.len() - start,
    {
        let ghost rest = s@.skip(start as int);
        let mut end: usize = start;
        assert(rest.skip(0) =~= rest);
        while end < c.len() && c[end] != '\n'
            invariant
                start <= end <= c@.len(),
                c@ == s@,
                rest == s@.skip(start as int),
                line_len(rest) == (end - start) + line_len(rest.skip(end - start)),
            decreases c.len() - end,
        {
            assert(rest.skip(end - start).skip(1) =~= rest.skip(end + 1 - start));
            end += 1;
        }
        if end < c.len() {
            end += 1;
        }
        proof {
            lemma_line_len(rest);
        }
        assert(line_len(rest) == end - start);
        assert(rest.take(end - start) =~= c@.subrange(start as int, end as int));
        assert(rest.skip(end - start) =~= s@.skip(end as int));
        let ghost before = views(out@);
        let line = string_of_range(&c, start, end);
        out.push(line);
        assert(views(out@) =~= before.push(line@));
        start = end;
    }
    assert(s@.skip(start as int) =~= Seq::<char>::empty());
    out
}

/// A line without its line ending.
pub fn chomp_text(line: &str) -> (r: String)
    ensures
        r@ == chomp(line@),
{
    let c = chars_of(line);
    let mut n: usize = c.len();
    if n > 0 && c[n - 1] == '\n' {
        n -= 1;
        if n > 0 && c[n - 1] == '\r' {
            n -= 1;
        }
    }
    assert(c@.subrange(0, n as int) =~= chomp(line@));
    string_of_range(&c, 0, n)
}

/// The lines of `s` without their line endings.
pub fn text_lines(s: &str) -> (r: Vec<String>)
    ensures
        views(r@) == lines(s@),
{
    let raw = split_inclusive_lines(s);
    let mut out: Vec<String> = Vec::new();
    let mut i: usize = 0;
    while i < raw.len()
        invariant
            i <= raw@.len(),
            views(raw@) == split_lines(s@),
            out@.len() == i,
            forall|k: int| 0 <= k < i ==> (#[trigger] out@[k])@ == chomp(raw@[k]@),
        decreases raw.len() - i,
    {
        out.push(chomp_text(raw[i].as_str()));
        i += 1;
    }
    assert forall|k: int| 0 <= k < out@.len() implies views(out@)[k] == lines(s@)[k] by {
        assert(views(raw@)[k] == raw@[k]@);
    }
    assert(views(out@) =~= lines(s@));
    out
}

/// The text that its lines make up, one after the other.
pub open spec fn join(parts: Seq<Seq<char>>) -> Seq<char>
    decreases parts.len(),
{
    if parts.len() == 0 {
        Seq::empty()
    } else {
        join(parts.drop_last()) + parts.last()
    }
}

/// Joining after one more part in front.
pub proof fn lemma_join_front(first: Seq<char>, parts: Seq<Seq<char>>)
    ensures
        join(seq![first] + parts) == first + join(parts),
    decreases parts.len(),
{
    let all = seq![first] + parts;
    if parts.len() == 0 {
        assert(all.drop_last() =~= Seq::<Seq<char>>::empty());
        assert(join(all.drop_last()) =~= Seq::<char>::empty());
        assert(join(all) =~= first);
        assert(first + join(parts) =~= first);
    } else {
        lemma_join_front(first, parts.drop_last());
        assert(all.drop_last() =~= seq![first] + parts.drop_last());
        assert(all.last() == parts.last());
        assert(join(all) =~= first + join(parts));
    }
}

/// Splitting a text into lines loses nothing: the lines, joined, are the text.
pub proof fn law_lines_join(s: Seq<char>)
    ensures
        join(split_lines(s)) == s,
    decreases s.len(),
{
    if s.len() > 0 {
        lemma_line_len(s);
        let n = line_len(s) as int;
        law_lines_join(s.skip(n));
        lemma_join_front(s.take(n), split_lines(s.skip(n)));
        assert(s.take(n) + s.skip(n) =~= s);
    }
}

/// A text that ends with a newline, or is empty.
pub open spec fn is_whole_lines(s: Seq<char>) -> bool {
    s.len() > 0 ==> s.last() == '\n'
}

/// What follows whole lines does not change the length of the first one.
proof fn lemma_line_len_append(a: Seq<char>, b: Seq<char>)
    requires
        a.len() > 0,
        is_whole_lines(a),
    ensures
        line_len(a + b) == line_len(a),
    decreases a.len(),
{
    if a[0] != '\n' {
        lemma_line_len_append(a.skip(1), b);
        assert((a + b).skip(1) =~= a.skip(1) + b);
    }
}

/// The lines of whole lines and of what follows them.
pub proof fn lemma_split_append(a: Seq<char>, b: Seq<char>)
    requires
        is_whole_lines(a),
    ensures
        split_lines(a + b) == split_lines(a) + split_lines(b),
    decreases a.len(),
{
    if a.len() == 0 {
        assert(a + b =~= b);
        assert(split_lines(a) + split_lines(b) =~= split_lines(b));
    } else {
        lemma_line_len_append(a, b);
        lemma_line_len(a);
        let n = line_len(a) as int;
        lemma_split_append(a.skip(n), b);
        assert((a + b).take(n) =~= a.take(n));
        assert((a + b).skip(n) =~= a.skip(n) + b);
        assert(split_lines(a + b) =~= split_lines(a) + split_lines(b));
    }
}

/// Joining parts that follow others.
pub proof fn lemma_join_append(x: Seq<Seq<char>>, y: Seq<Seq<char>>)
    ensures
        join(x + y) == join(x) + join(y),
    decreases y.len(),
{
    if y.len() == 0 {
        assert(x + y =~= x);
        assert(join(x) + join(y) =~= join(x));
    } else {
        lemma_join_append(x, y.drop_last());
        assert((x + y).drop_last() =~= x + y.drop_last());
        assert(join(x + y) =~= join(x) + join(y));
    }
}

// ---------------------------------------------------------------------
// Bytes

/// The encoding of a text that follows another.
pub proof fn lemma_encode_append(a: Seq<char>, b: Seq<char>)
    ensures
        encode_utf8(a + b) == encode_utf8(a) + encode_utf8(b),
    decreases a.len(),
{
    if a.len() == 0 {
        assert(a + b =~= b);
        assert(encode_utf8(a) + encode_utf8(b) =~= encode_utf8(b));
    } else {
        lemma_encode_append(a.drop_first(), b);
        assert((a + b).drop_first() =~= a.drop_first() + b);
        assert(encode_utf8(a + b) =~= encode_utf8(a) + encode_utf8(b));
    }
}

/// `str::from_utf8` gives the text that the bytes encode, and fails exactly
/// on bytes that are not valid UTF-8.
#[verifier::external_body]
pub(crate) fn utf8_text(bytes: &[u8]) -> (r: Option<String>)
    ensures
        r is Some <==> valid_utf8(bytes@),
        r is Some ==> r->0@ == decode_utf8(bytes@),
{
    std::str::from_utf8(bytes).ok().map(|t| t.to_string())
}

/// The text that `String::from_utf8_lossy` reads from bytes.
pub uninterp spec fn utf8_lossy(bytes: Seq<u8>) -> Seq<char>;

/// `String::from_utf8_lossy` reads bytes as text, with a replacement
/// character where they are not valid UTF-8; valid UTF-8 is read as it is.
#[verifier::external_body]
pub(crate) fn utf8_lossy_text(bytes: &[u8]) -> (r: String)
    ensures
        r@ == utf8_lossy(bytes@),
        valid_utf8(bytes@) ==> r@ == decode_utf8(bytes@),
{
    String::from_utf8_lossy(bytes).into_owned()
}

/// The text that `str::to_lowercase` gives.
pub uninterp spec fn lowercase(s: Seq<char>) -> Seq<char>;

/// The lower case of an ASCII character.
pub open spec fn ascii_lower(c: char) -> char {
    if 'A' <= c <= 'Z' {
        (c as u32 + 32) as char
    } else {
        c
    }
}

/// `str::to_lowercase` maps a text to its Unicode lower case; of ASCII text,
/// it maps the letters `A` to `Z` and nothing else.
#[verifier::external_body]
pub(crate) fn lowercase_text(s: &str) -> (r: String)
    ensures
        r@ == lowercase(s@),
        is_ascii_chars(s@) ==> r@ == s@.map_values(|c: char| ascii_lower(c)),
{
    s.to_lowercase()
}

// ---------------------------------------------------------------------
// Laws

/// A text stands where it was put, and where a text stands its characters do.
pub proof fn law_occurs(a: Seq<char>, pat: Seq<char>, b: Seq<char>, s: Seq<char>, i: int, k: int)
    ensures
        occurs_at(a + pat + b, pat, a.len() as int),
        has_text(a + pat + b, pat),
        begins_with(pat + b, pat),
        occurs_at(s, pat, i) && 0 <= k < pat.len() ==> 0 <= i && i + k < s.len() && s[i + k]
            == pat[k],
        begins_with(s, pat) <==> pat.len() <= s.len() && s.take(pat.len() as int) == pat,
{
    assert((a + pat + b).subrange(a.len() as int, (a.len() + pat.len()) as int) =~= pat);
    assert(occurs_at(a + pat + b, pat, a.len() as int));
    assert((pat + b).subrange(0, pat.len() as int) =~= pat);
    if pat.len() <= s.len() {
        assert(s.take(pat.len() as int) =~= s.subrange(0, pat.len() as int));
    }
    if occurs_at(s, pat, i) && 0 <= k < pat.len() {
        assert(s.subrange(i, i + pat.len())[k] == pat[k]);
    }
}

/// What follows a prefix is all that is behind it; a text that does not begin
/// with the prefix has nothing behind it.
pub proof fn law_after_prefix(s: Seq<char>, pat: Seq<char>)
    ensures
        match after_prefix(s, pat) {
            Some(rest) => s == pat + rest,
            None => !(pat.len() <= s.len() && s.take(pat.len() as int) == pat),
        },
{
    if pat.len() <= s.len() {
        assert(s.take(pat.len() as int) =~= s.subrange(0, pat.len() as int));
        if s.take(pat.len() as int) == pat {
            assert(s =~= pat + s.skip(pat.len() as int));
        }
    }
}

/// Replacing takes occurrences from left to right: what stands before the first
/// one stays, that one is replaced, and replacing goes on behind it.
pub proof fn law_replace_first(a: Seq<char>, from: Seq<char>, to: Seq<char>, b: Seq<char>)
    requires
        from.len() > 0,
        forall|j: int| 0 <= j < a.len() ==> !occurs_at(a + from + b, from, j),
    ensures
        replace_all(a + from + b, from, to) == a + to + replace_all(b, from, to),
    decreases a.len(),
{
    let s = a + from + b;
    if a.len() == 0 {
        assert(s.subrange(0, from.len() as int) =~= from);
        assert(s.skip(from.len() as int) =~= b);
        assert(a + to + replace_all(b, from, to) =~= to + replace_all(b, from, to));
    } else {
        assert(!occurs_at(s, from, 0));
        let rest = a.skip(1);
        assert(s.skip(1) =~= rest + from + b);
        assert forall|j: int| 0 <= j < rest.len() implies !occurs_at(rest + from + b, from, j) by {
            if occurs_at(rest + from + b, from, j) {
                assert(s.subrange(j + 1, j + 1 + from.len()) =~= (rest + from + b).subrange(
                    j,
                    j + from.len(),
                ));
                assert(occurs_at(s, from, j + 1));
            }
        }
        law_replace_first(rest, from, to, b);
        assert(a + to + replace_all(b, from, to) =~= seq![a[0]] + (rest + to + replace_all(
            b,
            from,
            to,
        )));
    }
}

/// White space, by code point.
pub proof fn law_white_space(c: char)
    ensures
        is_space(c) <==> {
            let n = c as u32;
            9 <= n <= 13 || n == 32 || n == 133 || n == 160 || n == 5760 || 8192 <= n <= 8202 || n
                == 8232 || n == 8233 || n == 8239 || n == 8287 || n == 12288
        },
{
}

/// White space at the end goes, and nothing else.
pub proof fn law_trim_end(s: Seq<char>)
    ensures
        trim_end(s).len() <= s.len(),
        trim_end(s) == s.take(trim_end(s).len() as int),
        forall|i: int| trim_end(s).len() <= i < s.len() ==> is_space(#[trigger] s[i]),
        trim_end(s).len() > 0 ==> !is_space(trim_end(s).last()),
    decreases s.len(),
{
    if s.len() > 0 && is_space(s.last()) {
        law_trim_end(s.drop_last());
        assert(s.take(trim_end(s).len() as int) =~= s.drop_last().take(trim_end(s).len() as int));
        assert forall|i: int| trim_end(s).len() <= i < s.len() implies is_space(
            #[trigger] s[i],
        ) by {
            if i < s.len() - 1 {
                assert(s.drop_last()[i] == s[i]);
            }
        }
    } else {
        assert(s.take(s.len() as int) =~= s);
    }
}

/// White space at the start goes, and nothing else.
proof fn lemma_trim_start(s: Seq<char>)
    ensures
        trim_start(s).len() <= s.len(),
        trim_start(s) == s.skip(s.len() - trim_start(s).len()),
        forall|i: int| 0 <= i < s.len() - trim_start(s).len() ==> is_space(#[trigger] s[i]),
        trim_start(s).len() > 0 ==> !is_space(trim_start(s)[0]),
    decreases s.len(),
{
    if s.len() > 0 && is_space(s[0]) {
        let rest = s.skip(1);
        lemma_trim_start(rest);
        let n = trim_start(s).len();
        assert(s.skip(s.len() - n) =~= rest.skip(rest.len() - n));
        assert forall|i: int| 0 <= i < s.len() - n implies is_space(#[trigger] s[i]) by {
            if i > 0 {
                assert(rest[i - 1] == s[i]);
            }
        }
    } else {
        assert(s.skip(0) =~= s);
    }
}

/// White space at either end goes, and nothing else: a text is what is left of
/// it between two runs of white space, and that neither begins nor ends with
/// white space.
pub proof fn law_trim(s: Seq<char>)
    ensures
        exists|from: int, to: int|
            0 <= from <= to <= s.len() && trim(s) == #[trigger] s.subrange(from, to) && (forall|
                i: int,
            |
                0 <= i < from || to <= i < s.len() ==> is_space(#[trigger] s[i])),
        trim(s).len() > 0 ==> !is_space(trim(s)[0]) && !is_space(trim(s).last()),
{
    law_trim_end(s);
    let t = trim_end(s);
    lemma_trim_start(t);
    let from = t.len() - trim(s).len();
    let to = t.len() as int;
    assert(s.subrange(from, to) =~= trim(s));
    assert forall|i: int| 0 <= i < from || to <= i < s.len() implies is_space(#[trigger] s[i]) by {
        if i < from {
            assert(t[i] == s[i]);
        }
    }
}

/// The `last` characters at the end go, and nothing else.
pub proof fn law_trim_end_of(s: Seq<char>, last: char)
    ensures
        trim_end_of(s, last).len() <= s.len(),
        trim_end_of(s, last) == s.take(trim_end_of(s, last).len() as int),
        forall|i: int| trim_end_of(s, last).len() <= i < s.len() ==> #[trigger] s[i] == last,
        trim_end_of(s, last).len() > 0 ==> trim_end_of(s, last).last() != last,
    decreases s.len(),
{
    if s.len() > 0 && s.last() == last {
        law_trim_end_of(s.drop_last(), last);
        let n = trim_end_of(s, last).len() as int;
        assert(s.take(n) =~= s.drop_last().take(n));
        assert forall|i: int| n <= i < s.len() implies #[trigger] s[i] == last by {
            if i < s.len() - 1 {
                assert(s.drop_last()[i] == s[i]);
            }
        }
    } else {
        assert(s.take(s.len() as int) =~= s);
    }
}

/// A first line ends at the first newline, or with the text.
proof fn lemma_first_line(s: Seq<char>)
    requires
        s.len() > 0,
    ensures
        0 < line_len(s) <= s.len(),
        forall|i: int| 0 <= i < line_len(s) - 1 ==> #[trigger] s[i] != '\n',
        line_len(s) < s.len() ==> s[line_len(s) - 1] == '\n',
    decreases s.len(),
{
    if s[0] != '\n' {
        let rest = s.skip(1);
        if rest.len() > 0 {
            lemma_first_line(rest);
            assert forall|i: int| 0 <= i < line_len(s) - 1 implies #[trigger] s[i] != '\n' by {
                if i > 0 {
                    assert(rest[i - 1] == s[i]);
                }
            }
        }
    }
}

/// A text is split at its newlines and nowhere else: a line is not empty and has
/// a newline at its end or none at all, and only the last can have none.
pub proof fn law_split_at_newlines(s: Seq<char>, i: int, k: int)
    requires
        0 <= i < split_lines(s).len(),
    ensures
        split_lines(s)[i].len() > 0,
        0 <= k < split_lines(s)[i].len() - 1 ==> split_lines(s)[i][k] != '\n',
        i < split_lines(s).len() - 1 ==> split_lines(s)[i].last() == '\n',
    decreases s.len(),
{
    lemma_first_line(s);
    let n = line_len(s) as int;
    if i > 0 {
        law_split_at_newlines(s.skip(n), i - 1, k);
    } else if split_lines(s).len() > 1 {
        assert(s.skip(n).len() > 0);
    }
}

/// A text with no newline but at its end is one line.
pub proof fn law_single_line(s: Seq<char>)
    requires
        s.len() > 0,
        forall|i: int| 0 <= i < s.len() - 1 ==> #[trigger] s[i] != '\n',
    ensures
        split_lines(s) == seq![s],
{
    lemma_first_line(s);
    let n = line_len(s) as int;
    assert(n == s.len());
    assert(s.take(n) =~= s);
    assert(s.skip(n).len() == 0);
    assert(split_lines(s.skip(n)) =~= Seq::<Seq<char>>::empty());
    assert(split_lines(s) =~= seq![s]);
}

/// A line ending is `\n` or `\r\n`; without it, the rest of the line is as it
/// was.
pub proof fn law_line_endings(body: Seq<char>, s: Seq<char>, i: int)
    ensures
        body.len() == 0 || body.last() != '\r' ==> chomp(body.push('\n')) == body,
        chomp(body.push('\r').push('\n')) == body,
        body.len() == 0 || body.last() != '\n' ==> chomp(body) == body,
        lines(s).len() == split_lines(s).len(),
        0 <= i < lines(s).len() ==> lines(s)[i] == chomp(split_lines(s)[i]),
{
    assert(body.push('\n').drop_last() =~= body);
    assert(body.push('\r').push('\n').drop_last() =~= body.push('\r'));
    assert(body.push('\r').drop_last() =~= body);
}

/// Joined parts are the parts, one after the other, with nothing between them.
pub proof fn law_join(parts: Seq<Seq<char>>)
    ensures
        join(parts) == parts.flatten(),
    decreases parts.len(),
{
    if parts.len() > 0 {
        law_join(parts.drop_last());
        parts.drop_last().lemma_flatten_push(parts.last());
        assert(parts.drop_last().push(parts.last()) =~= parts);
    }
}

/// White space that was put behind a text goes again.
pub proof fn lemma_trim_end_tail(s: Seq<char>, tail: Seq<char>)
    requires
        s.len() > 0 ==> !is_space(s.last()),
        forall|i: int| 0 <= i < tail.len() ==> is_space(#[trigger] tail[i]),
    ensures
        trim_end(s + tail) == s,
    decreases tail.len(),
{
    let all = s + tail;
    if tail.len() == 0 {
        assert(all =~= s);
    } else {
        assert(all.last() == tail[tail.len() - 1]);
        assert(all.drop_last() =~= s + tail.drop_last());
        lemma_trim_end_tail(s, tail.drop_last());
    }
}

/// White space that was put around a text goes again.
pub proof fn lemma_trim_around(lead: Seq<char>, s: Seq<char>, tail: Seq<char>)
    requires
        s.len() > 0,
        !is_space(s[0]),
        !is_space(s.last()),
        forall|i: int| 0 <= i < lead.len() ==> is_space(#[trigger] lead[i]),
        forall|i: int| 0 <= i < tail.len() ==> is_space(#[trigger] tail[i]),
    ensures
        trim(lead + s + tail) == s,
{
    assert((lead + s).last() == s.last());
    lemma_trim_end_tail(lead + s, tail);
    lemma_trim_start_lead(lead, s);
}

/// White space that was put before a text goes again.
proof fn lemma_trim_start_lead(lead: Seq<char>, s: Seq<char>)
    requires
        s.len() > 0 ==> !is_space(s[0]),
        forall|i: int| 0 <= i < lead.len() ==> is_space(#[trigger] lead[i]),
    ensures
        trim_start(lead + s) == s,
    decreases lead.len(),
{
    let all = lead + s;
    if lead.len() == 0 {
        assert(all =~= s);
    } else {
        assert(all[0] == lead[0]);
        assert(all.skip(1) =~= lead.skip(1) + s);
        lemma_trim_start_lead(lead.skip(1), s);
    }
}

} // verus!

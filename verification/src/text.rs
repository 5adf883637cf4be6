//! Character-level helpers shared by the decimal formatter, the JSON row
//! renderer and the log sanitizer.

use vstd::prelude::*;

verus! {

use vstd::std_specs::iter::IteratorSpec;

/// Relies on std's `String::push`: it appends the given character to the
/// end of the string.
pub assume_specification [ String::push ](s: &mut String, ch: char)
    ensures
        final(s)@ == old(s)@.push(ch),
;

/// The decimal digit character for a value below ten.
pub open spec fn dec_digit_char(d: nat) -> char {
    if d == 0 {
        '0'
    } else if d == 1 {
        '1'
    } else if d == 2 {
        '2'
    } else if d == 3 {
        '3'
    } else if d == 4 {
        '4'
    } else if d == 5 {
        '5'
    } else if d == 6 {
        '6'
    } else if d == 7 {
        '7'
    } else if d == 8 {
        '8'
    } else {
        '9'
    }
}

/// The value of a decimal digit character, or ten if it is no digit.
pub open spec fn char_digit(c: char) -> nat {
    if c == '0' {
        0
    } else if c == '1' {
        1
    } else if c == '2' {
        2
    } else if c == '3' {
        3
    } else if c == '4' {
        4
    } else if c == '5' {
        5
    } else if c == '6' {
        6
    } else if c == '7' {
        7
    } else if c == '8' {
        8
    } else if c == '9' {
        9
    } else {
        10
    }
}

pub open spec fn is_dec_digit(c: char) -> bool {
    char_digit(c) < 10
}

pub fn digit_char(d: u8) -> (c: char)
    requires
        d < 10,
    ensures
        c == dec_digit_char(d as nat),
{
    if d == 0 {
        '0'
    } else if d == 1 {
        '1'
    } else if d == 2 {
        '2'
    } else if d == 3 {
        '3'
    } else if d == 4 {
        '4'
    } else if d == 5 {
        '5'
    } else if d == 6 {
        '6'
    } else if d == 7 {
        '7'
    } else if d == 8 {
        '8'
    } else {
        '9'
    }
}

/// The value of a digit character; ten marks a non-digit.
pub fn digit_value(c: char) -> (d: u8)
    ensures
        d == char_digit(c),
        d <= 10,
{
    match c {
        '0' => 0,
        '1' => 1,
        '2' => 2,
        '3' => 3,
        '4' => 4,
        '5' => 5,
        '6' => 6,
        '7' => 7,
        '8' => 8,
        '9' => 9,
        _ => 10,
    }
}

/// The characters of a string slice, as a vector.
pub fn str_chars(s: &str) -> (v: Vec<char>)
    ensures
        v@ == s@,
{
    broadcast use vstd::string::group_string_axioms;

    let mut it = s.chars();
    let mut v: Vec<char> = Vec::new();
    loop
        invariant
            it.obeys_prophetic_iter_laws(),
            it.decrease() is Some,
            s@ == v@ + it.remaining(),
        decreases it.decrease()->0,
    {
        match it.next() {
            Some(c) => {
                v.push(c);
            },
            None => {
                proof {
                    assert(it.remaining().len() == 0);
                    assert(s@ =~= v@);
                }
                return v;
            },
        }
    }
}

/// The characters Rust counts as whitespace: the Unicode `White_Space`
/// set.
pub open spec fn spec_is_space(c: char) -> bool {
    ||| c == '\t'
    ||| c == '\n'
    ||| c == '\u{b}'
    ||| c == '\u{c}'
    ||| c == '\r'
    ||| c == ' '
    ||| c == '\u{85}'
    ||| c == '\u{a0}'
    ||| c == '\u{1680}'
    ||| ((c as int) >= 0x2000 && (c as int) <= 0x200a)
    ||| c == '\u{2028}'
    ||| c == '\u{2029}'
    ||| c == '\u{202f}'
    ||| c == '\u{205f}'
    ||| c == '\u{3000}'
}

pub fn is_space(c: char) -> (r: bool)
    ensures
        r == spec_is_space(c),
{
    let lo: char = '\u{2000}';
    let hi: char = '\u{200a}';
    c == '\t' || c == '\n' || c == '\u{b}' || c == '\u{c}' || c == '\r' || c == ' ' || c
        == '\u{85}' || c == '\u{a0}' || c == '\u{1680}' || (lo <= c && c <= hi) || c
        == '\u{2028}' || c == '\u{2029}' || c == '\u{202f}' || c == '\u{205f}' || c == '\u{3000}'
}

/// What remains after leading whitespace.
pub open spec fn spec_trim_start(s: Seq<char>) -> Seq<char>
    decreases s.len(),
{
    if s.len() > 0 && spec_is_space(s[0]) {
        spec_trim_start(s.drop_first())
    } else {
        s
    }
}

/// What remains after trailing whitespace.
pub open spec fn spec_trim_end(s: Seq<char>) -> Seq<char>
    decreases s.len(),
{
    if s.len() > 0 && spec_is_space(s.last()) {
        spec_trim_end(s.drop_last())
    } else {
        s
    }
}

/// What remains after whitespace on both ends.
pub open spec fn spec_trim(s: Seq<char>) -> Seq<char> {
    spec_trim_end(spec_trim_start(s))
}

/// What remains after every leading and trailing occurrence of `c`.
pub open spec fn spec_trim_char_start(s: Seq<char>, c: char) -> Seq<char>
    decreases s.len(),
{
    if s.len() > 0 && s[0] == c {
        spec_trim_char_start(s.drop_first(), c)
    } else {
        s
    }
}

pub open spec fn spec_trim_char_end(s: Seq<char>, c: char) -> Seq<char>
    decreases s.len(),
{
    if s.len() > 0 && s.last() == c {
        spec_trim_char_end(s.drop_last(), c)
    } else {
        s
    }
}

pub open spec fn spec_trim_char(s: Seq<char>, c: char) -> Seq<char> {
    spec_trim_char_end(spec_trim_char_start(s, c), c)
}

/// Trim whitespace from both ends of a character vector.
pub fn trim_spaces(v: &Vec<char>) -> (r: Vec<char>)
    ensures
        r@ == spec_trim(v@),
{
    let mut start: usize = 0;
    let mut end: usize = v.len();
    let mut done: bool = false;
    proof {
        assert(v@.subrange(0, v@.len() as int) =~= v@);
    }
    while !done && start < end
        invariant
            start <= end <= v@.len(),
            end == v@.len(),
            spec_trim_start(v@) == spec_trim_start(v@.subrange(start as int, v@.len() as int)),
            done ==> start < end && !spec_is_space(v@[start as int]),
        decreases end - start + (if done { 0int } else { 1int }),
    {
        if is_space(v[start]) {
            proof {
                let tail = v@.subrange(start as int, v@.len() as int);
                assert(tail[0] == v@[start as int]);
                assert(tail.drop_first() =~= v@.subrange(start + 1, v@.len() as int));
            }
            start = start + 1;
        } else {
            done = true;
        }
    }
    proof {
        let tail = v@.subrange(start as int, v@.len() as int);
        if start == end {
            assert(tail.len() == 0);
        } else {
            assert(tail[0] == v@[start as int]);
        }
        assert(spec_trim_start(v@) == tail);
    }
    done = false;
    while !done && end > start
        invariant
            start <= end <= v@.len(),
            spec_trim_end(spec_trim_start(v@)) == spec_trim_end(
                v@.subrange(start as int, end as int),
            ),
            done ==> end > start && !spec_is_space(v@[end - 1]),
        decreases end - start + (if done { 0int } else { 1int }),
    {
        if is_space(v[end - 1]) {
            proof {
                let part = v@.subrange(start as int, end as int);
                assert(part.last() == v@[end - 1]);
                assert(part.drop_last() =~= v@.subrange(start as int, end - 1));
            }
            end = end - 1;
        } else {
            done = true;
        }
    }
    proof {
        let part = v@.subrange(start as int, end as int);
        if end == start {
            assert(part.len() == 0);
        } else {
            assert(part.last() == v@[end - 1]);
        }
        assert(spec_trim_end(spec_trim_start(v@)) == part);
    }
    let mut out: Vec<char> = Vec::new();
    let mut i: usize = start;
    while i < end
        invariant
            start <= i <= end <= v@.len(),
            out@ == v@.subrange(start as int, i as int),
        decreases end - i,
    {
        out.push(v[i]);
        proof {
            assert(v@.subrange(start as int, i + 1) =~= v@.subrange(start as int, i as int).push(
                v@[i as int],
            ));
        }
        i = i + 1;
    }
    out
}

/// Trim every occurrence of `c` from both ends of a character vector.
pub fn trim_char(v: &Vec<char>, c: char) -> (r: Vec<char>)
    ensures
        r@ == spec_trim_char(v@, c),
{
    let mut start: usize = 0;
    let mut end: usize = v.len();
    let mut done: bool = false;
    proof {
        assert(v@.subrange(0, v@.len() as int) =~= v@);
    }
    while !done && start < end
        invariant
            start <= end <= v@.len(),
            end == v@.len(),
            spec_trim_char_start(v@, c) == spec_trim_char_start(
                v@.subrange(start as int, v@.len() as int),
                c,
            ),
            done ==> start < end && v@[start as int] != c,
        decreases end - start + (if done { 0int } else { 1int }),
    {
        if v[start] == c {
            proof {
                let tail = v@.subrange(start as int, v@.len() as int);
                assert(tail[0] == v@[start as int]);
                assert(tail.drop_first() =~= v@.subrange(start + 1, v@.len() as int));
            }
            start = start + 1;
        } else {
            done = true;
        }
    }
    proof {
        let tail = v@.subrange(start as int, v@.len() as int);
        if start == end {
            assert(tail.len() == 0);
        } else {
            assert(tail[0] == v@[start as int]);
        }
        assert(spec_trim_char_start(v@, c) == tail);
    }
    done = false;
    while !done && end > start
        invariant
            start <= end <= v@.len(),
            spec_trim_char_end(spec_trim_char_start(v@, c), c) == spec_trim_char_end(
                v@.subrange(start as int, end as int),
                c,
            ),
            done ==> end > start && v@[end - 1] != c,
        decreases end - start + (if done { 0int } else { 1int }),
    {
        if v[end - 1] == c {
            proof {
                let part = v@.subrange(start as int, end as int);
                assert(part.last() == v@[end - 1]);
                assert(part.drop_last() =~= v@.subrange(start as int, end - 1));
            }
            end = end - 1;
        } else {
            done = true;
        }
    }
    proof {
        let part = v@.subrange(start as int, end as int);
        if end == start {
            assert(part.len() == 0);
        } else {
            assert(part.last() == v@[end - 1]);
        }
        assert(spec_trim_char_end(spec_trim_char_start(v@, c), c) == part);
    }
    let mut out: Vec<char> = Vec::new();
    let mut i: usize = start;
    while i < end
        invariant
            start <= i <= end <= v@.len(),
            out@ == v@.subrange(start as int, i as int),
        decreases end - i,
    {
        out.push(v[i]);
        proof {
            assert(v@.subrange(start as int, i + 1) =~= v@.subrange(start as int, i as int).push(
                v@[i as int],
            ));
        }
        i = i + 1;
    }
    out
}

/// The value of a hexadecimal digit character, or sixteen if it is none.
pub open spec fn spec_hex_digit(c: char) -> nat {
    if char_digit(c) < 10 {
        char_digit(c)
    } else if c == 'a' || c == 'A' {
        10
    } else if c == 'b' || c == 'B' {
        11
    } else if c == 'c' || c == 'C' {
        12
    } else if c == 'd' || c == 'D' {
        13
    } else if c == 'e' || c == 'E' {
        14
    } else if c == 'f' || c == 'F' {
        15
    } else {
        16
    }
}

pub open spec fn is_hex_digit(c: char) -> bool {
    spec_hex_digit(c) < 16
}

pub fn hex_digit_value(c: char) -> (d: u8)
    ensures
        d == spec_hex_digit(c),
        d <= 16,
{
    let ten = digit_value(c);
    if ten < 10 {
        ten
    } else {
        match c {
            'a' | 'A' => 10,
            'b' | 'B' => 11,
            'c' | 'C' => 12,
            'd' | 'D' => 13,
            'e' | 'E' => 14,
            'f' | 'F' => 15,
            _ => 16,
        }
    }
}

/// Character-for-character equality of two string slices.
pub fn str_eq(a: &str, b: &str) -> (r: bool)
    ensures
        r == (a@ == b@),
{
    let va = str_chars(a);
    let vb = str_chars(b);
    if va.len() != vb.len() {
        return false;
    }
    let mut i: usize = 0;
    while i < va.len()
        invariant
            va@ == a@,
            vb@ == b@,
            va@.len() == vb@.len(),
            i <= va@.len(),
            forall|j: int| 0 <= j < i ==> a@[j] == b@[j],
        decreases va.len() - i,
    {
        if va[i] != vb[i] {
            return false;
        }
        i = i + 1;
    }
    proof {
        assert(a@ =~= b@);
    }
    true
}

/// Lexicographic order on character sequences by code point, the order in
/// which reason strings are ranked; it agrees with byte order on the
/// UTF-8 encodings.
pub open spec fn spec_lex_le(a: Seq<char>, b: Seq<char>) -> bool
    decreases a.len(),
{
    if a.len() == 0 {
        true
    } else if b.len() == 0 {
        false
    } else if a[0] == b[0] {
        spec_lex_le(a.drop_first(), b.drop_first())
    } else {
        (a[0] as int) < (b[0] as int)
    }
}

/// The order ignores an equal prefix.
proof fn lemma_lex_skip(a: Seq<char>, b: Seq<char>, i: int)
    requires
        0 <= i <= a.len(),
        i <= b.len(),
        forall|j: int| 0 <= j < i ==> a[j] == b[j],
    ensures
        spec_lex_le(a, b) == spec_lex_le(a.skip(i), b.skip(i)),
    decreases i,
{
    if i == 0 {
        assert(a.skip(0) =~= a);
        assert(b.skip(0) =~= b);
    } else {
        assert(a[0] == b[0]);
        assert(a.len() > 0 && b.len() > 0);
        lemma_lex_skip(a.drop_first(), b.drop_first(), i - 1);
        assert(a.drop_first() =~= a.skip(1));
        assert(b.drop_first() =~= b.skip(1));
        assert(a.skip(1).skip(i - 1) =~= a.skip(i));
        assert(b.skip(1).skip(i - 1) =~= b.skip(i));
    }
}

/// The order is total.
pub proof fn lemma_lex_le_total(a: Seq<char>, b: Seq<char>)
    ensures
        spec_lex_le(a, b) || spec_lex_le(b, a),
    decreases a.len(),
{
    if a.len() > 0 && b.len() > 0 {
        if a[0] == b[0] {
            lemma_lex_le_total(a.drop_first(), b.drop_first());
        } else {
            assert((a[0] as int) != (b[0] as int));
        }
    }
}

/// The order is transitive.
pub proof fn lemma_lex_le_trans(a: Seq<char>, b: Seq<char>, c: Seq<char>)
    requires
        spec_lex_le(a, b),
        spec_lex_le(b, c),
    ensures
        spec_lex_le(a, c),
    decreases a.len(),
{
    if a.len() > 0 && b.len() > 0 && c.len() > 0 {
        if a[0] == b[0] && b[0] == c[0] {
            lemma_lex_le_trans(a.drop_first(), b.drop_first(), c.drop_first());
        }
    }
}

/// Lexicographic comparison of two string slices.
pub fn str_lex_le(a: &str, b: &str) -> (r: bool)
    ensures
        r == spec_lex_le(a@, b@),
{
    let va = str_chars(a);
    let vb = str_chars(b);
    let mut i: usize = 0;
    loop
        invariant
            va@ == a@,
            vb@ == b@,
            i <= va@.len(),
            i <= vb@.len(),
            forall|j: int| 0 <= j < i ==> a@[j] == b@[j],
        decreases va@.len() - i,
    {
        proof {
            lemma_lex_skip(a@, b@, i as int);
        }
        if i == va.len() {
            assert(a@.skip(i as int).len() == 0);
            return true;
        }
        if i == vb.len() {
            assert(b@.skip(i as int).len() == 0 && a@.skip(i as int).len() > 0);
            return false;
        }
        let ca = va[i];
        let cb = vb[i];
        if ca != cb {
            proof {
                assert(a@.skip(i as int)[0] == ca && b@.skip(i as int)[0] == cb);
            }
            return ca < cb;
        }
        i = i + 1;
    }
}

/// Append every character of `chars` to `out`.
pub fn push_chars(out: &mut String, chars: &Vec<char>)
    ensures
        final(out)@ == old(out)@ + chars@,
{
    let mut i: usize = 0;
    while i < chars.len()
        invariant
            i <= chars.len(),
            out@ == old(out)@ + chars@.take(i as int),
        decreases chars.len() - i,
    {
        out.push(chars[i]);
        proof {
            assert(chars@.take(i + 1) =~= chars@.take(i as int).push(chars@[i as int]));
        }
        i = i + 1;
    }
    proof {
        assert(chars@.take(chars@.len() as int) =~= chars@);
    }
}

} // verus!
